//! Numbers and comma-separated fields read out of attribute text, with the meaning that
//! Rust's `str::trim`, `str::split` and `str::parse` give them.

use crate::format::sprites::{
    all_digits, digits_value, find_char, find_from, lemma_find_from_bounds, parse_usize,
    unsigned_part,
};
use vstd::prelude::*;

verus! {

/// `c` has Unicode's `White_Space` property, which is what `char::is_whitespace` tests.
pub open spec fn is_white_space(c: char) -> bool {
    ||| '\t' <= c && c <= '\r'
    ||| c == ' '
    ||| c == '\u{85}'
    ||| c == '\u{a0}'
    ||| c == '\u{1680}'
    ||| '\u{2000}' <= c && c <= '\u{200a}'
    ||| c == '\u{2028}'
    ||| c == '\u{2029}'
    ||| c == '\u{202f}'
    ||| c == '\u{205f}'
    ||| c == '\u{3000}'
}

/// Where `s[lo..hi]` starts once leading white space is dropped.
pub open spec fn trim_start_at(s: Seq<char>, lo: int, hi: int) -> int
    decreases hi - lo,
{
    if lo < hi && is_white_space(s[lo]) {
        trim_start_at(s, lo + 1, hi)
    } else {
        lo
    }
}

/// Where `s[lo..hi]` ends once trailing white space is dropped.
pub open spec fn trim_end_at(s: Seq<char>, lo: int, hi: int) -> int
    decreases hi - lo,
{
    if lo < hi && is_white_space(s[hi - 1]) {
        trim_end_at(s, lo, hi - 1)
    } else {
        hi
    }
}

/// `s[lo..hi]` without its leading and trailing white space.
pub open spec fn trimmed_at(s: Seq<char>, lo: int, hi: int) -> Seq<char> {
    let start = trim_start_at(s, lo, hi);
    s.subrange(start, trim_end_at(s, start, hi))
}

/// How Rust parses a `u32`: an optional `+`, then at least one decimal digit and nothing
/// else, with a value that fits.
pub open spec fn parse_u32_spec(s: Seq<char>) -> Option<u32> {
    let digits = unsigned_part(s);
    if digits.len() > 0 && all_digits(digits) && digits_value(digits) <= u32::MAX {
        Some(digits_value(digits) as u32)
    } else {
        None
    }
}

/// How Rust parses an `i32`: an optional `+` or `-`, then at least one decimal digit and
/// nothing else, with a value that fits.
pub open spec fn parse_i32_spec(s: Seq<char>) -> Option<i32> {
    if s.len() > 0 && s[0] == '-' {
        let digits = s.subrange(1, s.len() as int);
        if digits.len() > 0 && all_digits(digits) && digits_value(digits) <= 0x8000_0000 {
            Some((0 - digits_value(digits)) as i32)
        } else {
            None
        }
    } else {
        let digits = unsigned_part(s);
        if digits.len() > 0 && all_digits(digits) && digits_value(digits) <= 0x7fff_ffff {
            Some(digits_value(digits) as i32)
        } else {
            None
        }
    }
}

/// The `u32` that `t` reads as, or `fallback` where it is absent or not a `u32`.
pub open spec fn number_or(t: Option<Seq<char>>, fallback: u32) -> u32 {
    match t {
        Some(text) => match parse_u32_spec(text) {
            Some(n) => n,
            None => fallback,
        },
        None => fallback,
    }
}

/// Where the comma-separated field of `s` that starts at `from` ends.
pub open spec fn field_end(s: Seq<char>, from: int) -> int {
    match find_from(s, ',', from) {
        Some(i) => i,
        None => s.len() as int,
    }
}

/// The trimmed text of `s[lo..hi]` read as an `i32`, or 0 where it is not one.
pub open spec fn int_or_zero_at(s: Seq<char>, lo: int, hi: int) -> i32 {
    match parse_i32_spec(trimmed_at(s, lo, hi)) {
        Some(v) => v,
        None => 0,
    }
}

/// A `Velocity` value such as `"-2,0"`: its first two comma-separated fields, each
/// trimmed and read as an `i32`, 0 standing for a missing or unreadable field.
pub open spec fn velocity_spec(s: Seq<char>) -> (i32, i32) {
    let first = int_or_zero_at(s, 0, field_end(s, 0));
    let second = match find_from(s, ',', 0) {
        Some(c) => int_or_zero_at(s, c + 1, field_end(s, c + 1)),
        None => 0,
    };
    (first, second)
}

/// The characters of `s`.
pub(crate) fn chars_of(s: &str) -> (chars: Vec<char>)
    ensures
        chars@ == s@,
{
    let n = s.unicode_len();
    let mut chars: Vec<char> = Vec::new();
    let mut i: usize = 0;
    while i < n
        invariant
            n == s@.len(),
            i <= n,
            chars@ == s@.subrange(0, i as int),
        decreases n - i,
    {
        chars.push(s.get_char(i));
        assert(chars@ =~= s@.subrange(0, i + 1));
        i = i + 1;
    }
    assert(chars@ =~= s@);
    chars
}

fn white_space(c: char) -> (ws: bool)
    ensures
        ws == is_white_space(c),
{
    ('\t' <= c && c <= '\r') || c == ' ' || c == '\u{85}' || c == '\u{a0}' || c == '\u{1680}'
        || ('\u{2000}' <= c && c <= '\u{200a}') || c == '\u{2028}' || c == '\u{2029}' || c == '\u{202f}'
        || c == '\u{205f}' || c == '\u{3000}'
}

/// The bounds of `s[lo..hi]` without its leading and trailing white space.
fn trim_bounds(s: &Vec<char>, lo: usize, hi: usize) -> (bounds: (usize, usize))
    requires
        lo <= hi <= s@.len(),
    ensures
        bounds.0 as int == trim_start_at(s@, lo as int, hi as int),
        bounds.1 as int == trim_end_at(s@, bounds.0 as int, hi as int),
        lo <= bounds.0 <= bounds.1 <= hi,
{
    let mut start = lo;
    while start < hi && white_space(s[start])
        invariant
            lo <= start <= hi <= s@.len(),
            trim_start_at(s@, lo as int, hi as int) == trim_start_at(s@, start as int, hi as int),
        decreases hi - start,
    {
        start = start + 1;
    }
    let mut end = hi;
    while end > start && white_space(s[end - 1])
        invariant
            lo <= start <= end <= hi <= s@.len(),
            trim_start_at(s@, lo as int, hi as int) == start,
            trim_end_at(s@, start as int, hi as int) == trim_end_at(s@, start as int, end as int),
        decreases end - start,
    {
        end = end - 1;
    }
    (start, end)
}

/// Reads `s[lo..hi]` as `str::parse::<u32>` does.
fn parse_u32_in(s: &Vec<char>, lo: usize, hi: usize) -> (value: Option<u32>)
    requires
        lo <= hi <= s@.len(),
    ensures
        value == parse_u32_spec(s@.subrange(lo as int, hi as int)),
{
    match parse_usize(s, lo, hi) {
        Some(v) => {
            if v <= 0xffff_ffff {
                Some(v as u32)
            } else {
                None
            }
        },
        None => None,
    }
}

/// Reads `s[lo..hi]` as `str::parse::<i32>` does.
fn parse_i32_in(s: &Vec<char>, lo: usize, hi: usize) -> (value: Option<i32>)
    requires
        lo <= hi <= s@.len(),
    ensures
        value == parse_i32_spec(s@.subrange(lo as int, hi as int)),
{
    let ghost text = s@.subrange(lo as int, hi as int);
    if lo < hi && s[lo] == '-' {
        let ghost digits = text.subrange(1, text.len() as int);
        assert(digits =~= s@.subrange(lo + 1, hi as int));
        if lo + 1 < hi && s[lo + 1] == '+' {
            assert(!('0' <= digits[0] && digits[0] <= '9'));
            assert(!all_digits(digits));
            return None;
        }
        assert(unsigned_part(digits) =~= digits);
        match parse_usize(s, lo + 1, hi) {
            Some(v) => {
                if v <= 0x8000_0000 {
                    let magnitude = v as i64;
                    Some((0 - magnitude) as i32)
                } else {
                    None
                }
            },
            None => None,
        }
    } else {
        match parse_usize(s, lo, hi) {
            Some(v) => {
                if v <= 0x7fff_ffff {
                    Some(v as i32)
                } else {
                    None
                }
            },
            None => None,
        }
    }
}

/// Reads `text` as `str::parse::<u32>` does.
pub fn parse_u32_text(text: &str) -> (value: Option<u32>)
    ensures
        value == parse_u32_spec(text@),
{
    let chars = chars_of(text);
    assert(chars@.subrange(0, chars@.len() as int) =~= chars@);
    parse_u32_in(&chars, 0, chars.len())
}

/// The trimmed field `s[lo..hi]` as an `i32`, or 0.
fn int_or_zero_in(s: &Vec<char>, lo: usize, hi: usize) -> (value: i32)
    requires
        lo <= hi <= s@.len(),
    ensures
        value == int_or_zero_at(s@, lo as int, hi as int),
{
    let (start, end) = trim_bounds(s, lo, hi);
    match parse_i32_in(s, start, end) {
        Some(v) => v,
        None => 0,
    }
}

/// Reads a pose's `Velocity` such as `"-2,0"`: the first two comma-separated fields, each
/// trimmed and parsed as an `i32`, with 0 for a missing or unreadable field.
pub fn parse_velocity(value: &str) -> (velocity: (i32, i32))
    ensures
        velocity == velocity_spec(value@),
{
    let chars = chars_of(value);
    let n = chars.len();
    proof { lemma_find_from_bounds(chars@, ',', 0); }
    let first_end = match find_char(&chars, ',', 0) {
        Some(c) => c,
        None => n,
    };
    let first = int_or_zero_in(&chars, 0, first_end);
    let second = match find_char(&chars, ',', 0) {
        Some(c) => {
            proof { lemma_find_from_bounds(chars@, ',', c + 1); }
            let end = match find_char(&chars, ',', c + 1) {
                Some(e) => e,
                None => n,
            };
            int_or_zero_in(&chars, c + 1, end)
        },
        None => 0,
    };
    (first, second)
}

/// `2` to the power `e`.
pub open spec fn two_to(e: nat) -> nat
    decreases e,
{
    if e == 0 {
        1
    } else {
        2 * two_to((e - 1) as nat)
    }
}

/// The position of the highest set bit of `n` (0 for 0 and 1).
pub open spec fn high_bit(n: nat) -> nat
    decreases n,
{
    if n <= 1 {
        0
    } else {
        1 + high_bit(n / 2)
    }
}

/// The IEEE-754 binary64 bit pattern of the integer `n`, for `n` below `2^53`, where the
/// conversion is exact: a positive `n` is `1.m * 2^e` with `e` its highest set bit, stored
/// as the biased exponent `1023 + e` above the 52 fraction bits `m`.
pub open spec fn f64_bits_of_integer(n: nat) -> nat {
    if n == 0 {
        0
    } else {
        let e = high_bit(n);
        ((1023 + e) * two_to(52) + (n - two_to(e)) * two_to((52 - e) as nat)) as nat
    }
}

proof fn lemma_two_to_adds(a: nat, b: nat)
    ensures
        two_to(a) * two_to(b) == two_to(a + b),
    decreases a,
{
    if a == 0 {
        assert(two_to(a) == 1);
        assert(a + b == b);
    } else {
        let a1 = (a - 1) as nat;
        lemma_two_to_adds(a1, b);
        let x = two_to(a1);
        let y = two_to(b);
        assert(two_to(a) == 2 * x);
        assert(two_to(a + b) == 2 * two_to(a1 + b));
        assert(two_to(a) * y == 2 * (x * y)) by (nonlinear_arith)
            requires
                two_to(a) == 2 * x,
        ;
    }
}

proof fn lemma_high_bit_bounds(n: nat)
    requires
        n >= 1,
    ensures
        two_to(high_bit(n)) <= n < two_to(high_bit(n) + 1),
    decreases n,
{
    assert(two_to(0) == 1);
    assert(two_to(1) == 2 * two_to(0));
    if n >= 2 {
        lemma_high_bit_bounds(n / 2);
        let h = high_bit(n / 2);
        assert(high_bit(n) == h + 1);
        assert(two_to(h + 1) == 2 * two_to(h));
        assert(two_to(h + 2) == 2 * two_to(h + 1));
        assert(2 * (n / 2) <= n <= 2 * (n / 2) + 1);
    }
}

/// The bit pattern of `n as f64`: `n` is exactly representable, so this is the IEEE-754
/// encoding of `n` itself.
pub fn f64_bits_of_u32(n: u32) -> (bits: u64)
    ensures
        bits == f64_bits_of_integer(n as nat),
{
    if n == 0 {
        return 0;
    }
    proof {
        lemma_high_bit_bounds(n as nat);
        lemma_two_to_32();
        if high_bit(n as nat) >= 32 {
            lemma_two_to_monotone(32, high_bit(n as nat));
        }
    }
    let mut m: u32 = n;
    let mut e: u64 = 0;
    while m >= 2
        invariant
            1 <= m <= n,
            high_bit(n as nat) == e + high_bit(m as nat),
            high_bit(n as nat) <= 31,
        decreases m,
    {
        m = m / 2;
        e = e + 1;
    }
    assert(high_bit(n as nat) == e);
    let mut p: u64 = 1;
    let mut i: u64 = 0;
    while i < e
        invariant
            i <= e,
            e == high_bit(n as nat),
            two_to(e as nat) <= n,
            p == two_to(i as nat),
            p <= two_to(e as nat),
        decreases e - i,
    {
        proof {
            lemma_two_to_adds((i + 1) as nat, (e - i - 1) as nat);
            assert(two_to((i + 1) as nat) == 2 * two_to(i as nat));
            assert(two_to((e - i - 1) as nat) >= 1) by {
                lemma_two_to_positive((e - i - 1) as nat);
            }
            assert(two_to((i + 1) as nat) <= two_to(e as nat)) by (nonlinear_arith)
                requires
                    two_to((i + 1) as nat) * two_to((e - i - 1) as nat) == two_to(e as nat),
                    two_to((e - i - 1) as nat) >= 1,
            ;
        }
        p = p * 2;
        i = i + 1;
    }
    let mut q: u64 = 1;
    let mut j: u64 = 0;
    while j < 52 - e
        invariant
            e <= 31,
            j <= 52 - e,
            q == two_to(j as nat),
            q <= 0x10_0000_0000_0000,
        decreases 52 - e - j,
    {
        proof {
            lemma_two_to_adds((j + 1) as nat, (52 - (j + 1)) as nat);
            lemma_two_to_positive((52 - (j + 1)) as nat);
            lemma_two_to_52();
            assert(two_to((j + 1) as nat) == 2 * two_to(j as nat));
            assert(two_to((j + 1) as nat) <= two_to(52)) by (nonlinear_arith)
                requires
                    two_to((j + 1) as nat) * two_to((52 - (j + 1)) as nat) == two_to(52),
                    two_to((52 - (j + 1)) as nat) >= 1,
            ;
        }
        q = q * 2;
        j = j + 1;
    }
    proof {
        lemma_two_to_adds(e as nat, (52 - e) as nat);
        lemma_two_to_52();
        assert((n - p) * q < 0x10_0000_0000_0000) by (nonlinear_arith)
            requires
                p <= n,
                n < 2 * p,
                p * q == 0x10_0000_0000_0000,
        ;
    }
    let mantissa = (n as u64 - p) * q;
    (1023 + e) * 0x10_0000_0000_0000 + mantissa
}

proof fn lemma_two_to_monotone(a: nat, b: nat)
    requires
        a <= b,
    ensures
        two_to(a) <= two_to(b),
    decreases b,
{
    if a < b {
        lemma_two_to_monotone(a, (b - 1) as nat);
        lemma_two_to_positive((b - 1) as nat);
    }
}

proof fn lemma_two_to_32()
    ensures
        two_to(32) == 0x1_0000_0000,
{
    reveal_with_fuel(two_to, 33);
}

proof fn lemma_two_to_positive(e: nat)
    ensures
        two_to(e) >= 1,
    decreases e,
{
    if e > 0 {
        lemma_two_to_positive((e - 1) as nat);
    }
}

proof fn lemma_two_to_52()
    ensures
        two_to(52) == 0x10_0000_0000_0000,
{
    reveal_with_fuel(two_to, 53);
}

} // verus!
