//! Numbers in text and bytes: Rust's integer parsing and printing, and little-endian u32s.
use vstd::prelude::*;
use crate::text::push_char;

verus! {

/// An ASCII decimal digit.
pub open spec fn is_digit(c: char) -> bool {
    '0' <= c && c <= '9'
}

/// The value of a decimal digit.
pub open spec fn digit_val(c: char) -> int {
    (c as int) - ('0' as int)
}

/// Every character is a decimal digit.
pub open spec fn all_digits(s: Seq<char>) -> bool {
    forall|i: int| 0 <= i < s.len() ==> is_digit(#[trigger] s[i])
}

/// The number the decimal digits spell.
pub open spec fn digits_value(s: Seq<char>) -> int
    decreases s.len(),
{
    if s.len() == 0 {
        0
    } else {
        10 * digits_value(s.drop_last()) + digit_val(s.last())
    }
}

/// What Rust's `parse` of an integer reads (before the range check): an optional sign ('+', or '-' for signed
/// types) followed by at least one decimal digit, and nothing else.
pub open spec fn spec_parse_int(s: Seq<char>, signed: bool) -> Option<int> {
    if s.len() > 0 && (s[0] == '+' || (signed && s[0] == '-')) {
        let d = s.subrange(1, s.len() as int);
        if d.len() > 0 && all_digits(d) {
            Some(if s[0] == '-' { -digits_value(d) } else { digits_value(d) })
        } else {
            None
        }
    } else if s.len() > 0 && all_digits(s) {
        Some(digits_value(s))
    } else {
        None
    }
}

/// `s.parse::<i64>().ok()`.
pub open spec fn spec_parse_i64(s: Seq<char>) -> Option<i64> {
    match spec_parse_int(s, true) {
        Some(v) => if i64::MIN <= v <= i64::MAX { Some(v as i64) } else { None },
        None => None,
    }
}

/// `s.parse::<usize>().ok()`.
pub open spec fn spec_parse_usize(s: Seq<char>) -> Option<usize> {
    match spec_parse_int(s, false) {
        Some(v) => if 0 <= v <= usize::MAX { Some(v as usize) } else { None },
        None => None,
    }
}

proof fn lemma_digits_value_nonneg(s: Seq<char>)
    requires
        all_digits(s),
    ensures
        digits_value(s) >= 0,
    decreases s.len(),
{
    if s.len() > 0 {
        assert(all_digits(s.drop_last())) by {
            assert forall|i: int| 0 <= i < s.drop_last().len() implies is_digit(#[trigger] s.drop_last()[i]) by {
                assert(s.drop_last()[i] == s[i]);
            }
        }
        lemma_digits_value_nonneg(s.drop_last());
        assert(is_digit(s[s.len() - 1]));
    }
}

const CAP: u128 = 0x1_0000_0000_0000_0000;

/// The value of the digits s[start..] when they are all digits and there is at least one: Some(value) when it is
/// at most 2^64, Some(2^64 + 1) when it is more; None otherwise.
fn read_digits(s: &str, start: usize) -> (r: Option<u128>)
    requires
        start <= s@.len(),
    ensures
        ({
            let d = s@.subrange(start as int, s@.len() as int);
            match r {
                None => !(d.len() > 0 && all_digits(d)),
                Some(v) => d.len() > 0 && all_digits(d) && (if digits_value(d) <= CAP {
                    v == digits_value(d)
                } else {
                    v == CAP + 1
                }),
            }
        }),
{
    let n = s.unicode_len();
    if start >= n {
        return None;
    }
    let mut acc: u128 = 0;
    let mut i = start;
    while i < n
        invariant
            n == s@.len(),
            start <= i <= n,
            all_digits(s@.subrange(start as int, i as int)),
            ({
                let d = s@.subrange(start as int, i as int);
                if digits_value(d) <= CAP { acc == digits_value(d) } else { acc == CAP + 1 }
            }),
        decreases n - i,
    {
        let c = s.get_char(i);
        if !('0' <= c && c <= '9') {
            proof {
                let d = s@.subrange(start as int, n as int);
                assert(d[i - start] == c);
            }
            return None;
        }
        let dv: u128 = ((c as u32) - ('0' as u32)) as u128;
        let ghost d0 = s@.subrange(start as int, i as int);
        let ghost d1 = s@.subrange(start as int, i + 1);
        proof {
            assert(d1.drop_last() =~= d0);
            assert(d1.last() == c);
            assert(all_digits(d1)) by {
                assert forall|j: int| 0 <= j < d1.len() implies is_digit(#[trigger] d1[j]) by {
                    if j < d0.len() {
                        assert(d1[j] == d0[j]);
                    }
                }
            }
            lemma_digits_value_nonneg(d0);
        }
        if acc > CAP {
            proof {
                assert(digits_value(d0) > CAP);
                assert(digits_value(d1) == 10 * digits_value(d0) + dv);
            }
        } else {
            let next = acc * 10 + dv;
            acc = if next > CAP { CAP + 1 } else { next };
        }
        i = i + 1;
    }
    Some(acc)
}

/// `s.parse::<i64>().ok()`: an optional '+' or '-' and decimal digits, within i64's range.
pub fn parse_i64(s: &str) -> (r: Option<i64>)
    ensures
        r == spec_parse_i64(s@),
{
    let n = s.unicode_len();
    if n == 0 {
        return None;
    }
    let c0 = s.get_char(0);
    let signed = c0 == '+' || c0 == '-';
    let start: usize = if signed { 1 } else { 0 };
    let v = read_digits(s, start);
    proof {
        if !signed {
            assert(s@.subrange(0, n as int) =~= s@);
        }
    }
    match v {
        None => None,
        Some(v) => {
            if c0 == '-' {
                if v <= 0x8000_0000_0000_0000u128 {
                    Some((0i128 - v as i128) as i64)
                } else {
                    None
                }
            } else {
                if v <= 0x7fff_ffff_ffff_ffffu128 {
                    Some(v as i64)
                } else {
                    None
                }
            }
        },
    }
}

/// `s.parse::<usize>().ok()`: an optional '+' and decimal digits, within usize's range.
pub fn parse_usize(s: &str) -> (r: Option<usize>)
    ensures
        r == spec_parse_usize(s@),
{
    let n = s.unicode_len();
    if n == 0 {
        return None;
    }
    let c0 = s.get_char(0);
    let start: usize = if c0 == '+' { 1 } else { 0 };
    let v = read_digits(s, start);
    proof {
        if c0 != '+' {
            assert(s@.subrange(0, n as int) =~= s@);
        }
    }
    match v {
        None => None,
        Some(v) => {
            if v <= usize::MAX as u128 {
                Some(v as usize)
            } else {
                None
            }
        },
    }
}

/// The character of a decimal digit.
pub open spec fn digit_char(d: int) -> char {
    if d == 0 { '0' } else if d == 1 { '1' } else if d == 2 { '2' } else if d == 3 { '3' } else if d == 4 { '4' }
    else if d == 5 { '5' } else if d == 6 { '6' } else if d == 7 { '7' } else if d == 8 { '8' } else { '9' }
}

/// The decimal digits of n, without leading zeros ("0" for zero).
pub open spec fn spec_digits(n: nat) -> Seq<char>
    decreases n,
{
    if n < 10 {
        seq![digit_char(n as int)]
    } else {
        spec_digits(n / 10).push(digit_char((n % 10) as int))
    }
}

/// The digits of n are at least one decimal digit, and they spell n.
pub proof fn lemma_digits_read(n: nat)
    ensures
        spec_digits(n).len() >= 1,
        all_digits(spec_digits(n)),
        digits_value(spec_digits(n)) == n,
    decreases n,
{
    let c = digit_char((n % 10) as int);
    assert(is_digit(c) && digit_val(c) == n % 10);
    if n >= 10 {
        lemma_digits_read(n / 10);
        let s = spec_digits(n / 10);
        let t = s.push(c);
        assert(t.drop_last() =~= s);
        assert(t.last() == c);
        assert(digits_value(t) == 10 * digits_value(s) + digit_val(c));
        assert(10 * (n / 10) + n % 10 == n);
        assert forall|i: int| 0 <= i < t.len() implies is_digit(#[trigger] t[i]) by {
            if i < s.len() {
                assert(t[i] == s[i]);
            }
        }
    } else {
        let t = spec_digits(n);
        assert(t.drop_last() =~= Seq::<char>::empty());
        assert(digits_value(t.drop_last()) == 0);
        assert(t.last() == c);
    }
}

/// How Rust prints an integer: a '-' for negative numbers, then its digits.
pub open spec fn spec_int_text(n: int) -> Seq<char> {
    if n < 0 { seq!['-'] + spec_digits((-n) as nat) } else { spec_digits(n as nat) }
}

fn digit_of(d: u64) -> (c: char)
    requires
        d < 10,
    ensures
        c == digit_char(d as int),
{
    match d {
        0 => '0',
        1 => '1',
        2 => '2',
        3 => '3',
        4 => '4',
        5 => '5',
        6 => '6',
        7 => '7',
        8 => '8',
        _ => '9',
    }
}

fn push_digits(s: &mut String, n: u64)
    ensures
        final(s)@ == old(s)@ + spec_digits(n as nat),
    decreases n,
{
    if n >= 10 {
        push_digits(s, n / 10);
    }
    let ghost mid = s@;
    push_char(s, digit_of(n % 10));
    proof {
        if n >= 10 {
            assert(mid == old(s)@ + spec_digits((n / 10) as nat));
            assert(s@ =~= old(s)@ + spec_digits(n as nat));
        } else {
            assert(s@ =~= old(s)@ + spec_digits(n as nat));
        }
    }
}

/// `n.to_string()` for an i64.
pub fn int_text(n: i64) -> (r: String)
    ensures
        r@ == spec_int_text(n as int),
{
    let mut s = String::new();
    if n < 0 {
        push_char(&mut s, '-');
        let m: u64 = (0i128 - n as i128) as u64;
        push_digits(&mut s, m);
    } else {
        push_digits(&mut s, n as u64);
    }
    s
}

/// `n.to_string()` for a usize.
pub fn usize_text(n: usize) -> (r: String)
    ensures
        r@ == spec_digits(n as nat),
{
    let mut s = String::new();
    push_digits(&mut s, n as u64);
    proof {
        assert(s@ =~= spec_digits(n as nat));
    }
    s
}

/// Reads the little-endian u32 at byte `o` and moves `o` past it (monster3d.rs).
pub fn rd_u32(b: &[u8], o: &mut usize) -> (v: u32)
    requires
        *old(o) + 4 <= b@.len(),
    ensures
        *final(o) == *old(o) + 4,
        v == b@[*old(o) as int] + 256 * b@[*old(o) + 1] + 65536 * b@[*old(o) + 2] + 16777216 * b@[*old(o) + 3],
{
    let i = *o;
    let (b0, b1, b2, b3) = (b[i], b[i + 1], b[i + 2], b[i + 3]);
    let v = (b0 as u32) | ((b1 as u32) << 8u32) | ((b2 as u32) << 16u32) | ((b3 as u32) << 24u32);
    assert(v == b0 + 256 * b1 + 65536 * b2 + 16777216 * b3) by (bit_vector)
        requires
            v == (b0 as u32) | ((b1 as u32) << 8u32) | ((b2 as u32) << 16u32) | ((b3 as u32) << 24u32),
    ;
    *o = i + 4;
    v
}


/// For a negative a = -b: its remainder is 0 when m divides b, else m minus b's remainder.
proof fn lemma_neg_mod(a: int, b: int, m: int)
    requires
        m > 0,
        b > 0,
        a == -b,
    ensures
        b % m == 0 ==> a % m == 0,
        b % m != 0 ==> a % m == m - b % m,
{
    vstd::arithmetic::div_mod::lemma_fundamental_div_mod(b, m);
    let q = b / m;
    let t = b % m;
    if t == 0 {
        assert(a == (-q) * m + 0) by (nonlinear_arith)
            requires
                b == m * q + t,
                t == 0,
                a == -b,
        ;
        vstd::arithmetic::div_mod::lemma_fundamental_div_mod_converse(a, m, -q, 0);
    } else {
        assert(a == (-q - 1) * m + (m - t)) by (nonlinear_arith)
            requires
                b == m * q + t,
                a == -b,
        ;
        vstd::arithmetic::div_mod::lemma_fundamental_div_mod_converse(a, m, -q - 1, m - t);
    }
}

/// The remainder of a by m that is never negative (Rust's rem_euclid).
pub fn euclid_mod(a: i128, m: i128) -> (r: i128)
    requires
        m > 0,
        a > i128::MIN,
    ensures
        r == a % m,
        0 <= r < m,
{
    if a >= 0 {
        a % m
    } else {
        let b = -a;
        let t = b % m;
        proof {
            lemma_neg_mod(a as int, b as int, m as int);
        }
        if t == 0 { 0 } else { m - t }
    }
}

} // verus!
