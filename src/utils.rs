//! Arithmetic helpers and text formatting shared by the other modules.

use vstd::prelude::*;
use vstd::string::*;

verus! {

/// The character of a decimal digit.
pub open spec fn digit_char(d: nat) -> char {
    if d == 0 { '0' }
    else if d == 1 { '1' }
    else if d == 2 { '2' }
    else if d == 3 { '3' }
    else if d == 4 { '4' }
    else if d == 5 { '5' }
    else if d == 6 { '6' }
    else if d == 7 { '7' }
    else if d == 8 { '8' }
    else { '9' }
}

/// Decimal text of a natural number, without leading zeros.
pub open spec fn decimal(n: nat) -> Seq<char>
    decreases n,
{
    if n < 10 {
        seq![digit_char(n)]
    } else {
        decimal(n / 10).push(digit_char(n % 10))
    }
}

/// `s` preceded by zeros up to `width` characters.
pub open spec fn zero_padded(s: Seq<char>, width: nat) -> Seq<char> {
    if s.len() >= width {
        s
    } else {
        Seq::new((width - s.len()) as nat, |i: int| '0') + s
    }
}

fn digit_text(d: u64) -> (r: &'static str)
    requires
        d < 10,
    ensures
        r@ == seq![digit_char(d as nat)],
{
    proof {
        reveal_strlit("0");
        reveal_strlit("1");
        reveal_strlit("2");
        reveal_strlit("3");
        reveal_strlit("4");
        reveal_strlit("5");
        reveal_strlit("6");
        reveal_strlit("7");
        reveal_strlit("8");
        reveal_strlit("9");
    }
    if d == 0 { "0" }
    else if d == 1 { "1" }
    else if d == 2 { "2" }
    else if d == 3 { "3" }
    else if d == 4 { "4" }
    else if d == 5 { "5" }
    else if d == 6 { "6" }
    else if d == 7 { "7" }
    else if d == 8 { "8" }
    else { "9" }
}

/// Decimal text of `n`.
pub fn decimal_text(n: u64) -> (r: String)
    ensures
        r@ == decimal(n as nat),
    decreases n,
{
    if n < 10 {
        String::from_str(digit_text(n))
    } else {
        let mut s = decimal_text(n / 10);
        s.append(digit_text(n % 10));
        s
    }
}

/// Decimal text of `n`, padded with zeros to `width` characters.
pub fn zero_padded_text(n: u64, width: usize) -> (r: String)
    ensures
        r@ == zero_padded(decimal(n as nat), width as nat),
{
    let digits = decimal_text(n);
    let len = digits.as_str().unicode_len();
    if len >= width {
        return digits;
    }
    let mut r = String::new();
    let mut i: usize = 0;
    proof {
        reveal_strlit("0");
    }
    while i < width - len
        invariant
            len == digits@.len(),
            len < width,
            i <= width - len,
            r@ == Seq::new(i as nat, |j: int| '0'),
        decreases width - len - i,
    {
        proof {
            reveal_strlit("0");
        }
        r.append("0");
        i = i + 1;
        assert(r@ =~= Seq::new(i as nat, |j: int| '0'));
    }
    r.append(digits.as_str());
    r
}

/// Text of an amount in the smallest unit as whole tokens with six decimals.
pub open spec fn poe_amount_text(amount: nat) -> Seq<char> {
    decimal(amount / 1_000_000) + seq!['.'] + zero_padded(decimal(amount % 1_000_000), 6)
        + seq![' ', 'P', 'O', 'E']
}

/// Formats an amount given in the smallest unit as `whole.decimals POE`.
pub fn format_poe_amount(amount: u64) -> (r: String)
    ensures
        r@ == poe_amount_text(amount as nat),
{
    let whole = amount / 1_000_000;
    let frac = amount % 1_000_000;
    let mut r = decimal_text(whole);
    proof {
        reveal_strlit(".");
        reveal_strlit(" POE");
    }
    r.append(".");
    let f = zero_padded_text(frac, 6);
    r.append(f.as_str());
    r.append(" POE");
    r
}

/// The percentage `part` is of `total`, rounded down and capped at 255; 0 when
/// `total` is 0.
pub open spec fn percentage(part: nat, total: nat) -> nat {
    if total == 0 {
        0
    } else if part * 100 / total > 255 {
        255
    } else {
        part * 100 / total
    }
}

/// The share `part` is of `total`, in whole percent rounded down.
pub fn calculate_percentage(part: usize, total: usize) -> (r: u8)
    ensures
        r as nat == percentage(part as nat, total as nat),
{
    if total == 0 {
        return 0;
    }
    let p = (part as u128) * 100 / (total as u128);
    if p > 255 {
        255
    } else {
        p as u8
    }
}

/// `value` limited to the range from `min` to `max`.
pub open spec fn clamped(value: int, min: int, max: int) -> int {
    if value < min {
        min
    } else if value > max {
        max
    } else {
        value
    }
}

/// Clamps `value` between `min` and `max`; `min` wins when the bounds cross.
pub fn clamp(value: i64, min: i64, max: i64) -> (r: i64)
    ensures
        r as int == clamped(value as int, min as int, max as int),
{
    if value < min {
        min
    } else if value > max {
        max
    } else {
        value
    }
}

/// Polynomial rolling hash of bytes with base 31, modulo 2^64.
pub open spec fn seed_of(bytes: Seq<u8>) -> u64
    decreases bytes.len(),
{
    if bytes.len() == 0 {
        0
    } else {
        let prev = seed_of(bytes.drop_last());
        ((prev as nat * 31 + bytes.last() as nat) % 0x1_0000_0000_0000_0000) as u64
    }
}

/// A deterministic seed derived from the bytes of a string.
pub fn string_to_seed(s: &str) -> (r: u64)
    ensures
        r == seed_of(s.spec_bytes()),
{
    let bytes = s.as_bytes();
    let mut acc: u64 = 0;
    let mut i: usize = 0;
    while i < bytes.len()
        invariant
            bytes@ == s.spec_bytes(),
            i <= bytes@.len(),
            acc == seed_of(bytes@.subrange(0, i as int)),
        decreases bytes@.len() - i,
    {
        let b = bytes[i];
        proof {
            let pre = bytes@.subrange(0, i as int + 1);
            assert(pre.drop_last() =~= bytes@.subrange(0, i as int));
        }
        acc = acc.wrapping_mul(31).wrapping_add(b as u64);
        i = i + 1;
    }
    assert(bytes@.subrange(0, bytes@.len() as int) =~= bytes@);
    acc
}

/// Whether `r` is the integer square root of `n`.
pub open spec fn is_isqrt(n: nat, r: nat) -> bool {
    r * r <= n && n < (r + 1) * (r + 1)
}

/// The integer square root of `n`, rounded down.
pub fn integer_sqrt(n: u64) -> (r: u64)
    ensures
        is_isqrt(n as nat, r as nat),
{
    let mut lo: u64 = 0;
    let mut hi: u64 = 0x1_0000_0000;
    while hi - lo > 1
        invariant
            lo < hi <= 0x1_0000_0000,
            lo * lo <= n,
            n < hi * hi,
        decreases hi - lo,
    {
        let mid = lo + (hi - lo) / 2;
        assert(mid * mid <= 0x1_0000_0000 * 0x1_0000_0000) by (nonlinear_arith)
            requires mid <= 0x1_0000_0000;
        if (mid as u128) * (mid as u128) <= n as u128 {
            lo = mid;
        } else {
            hi = mid;
        }
    }
    assert(hi == lo + 1);
    lo
}

/// The integer square root of a wide `n`, rounded down.
pub fn integer_sqrt_wide(n: u128) -> (r: u64)
    requires
        n < 0x10_0000_0000_0000_0000_0000_0000,
    ensures
        is_isqrt(n as nat, r as nat),
        r < 0x4_0000_0000_0000,
{
    let mut lo: u128 = 0;
    let mut hi: u128 = 0x4_0000_0000_0000;
    assert(n < hi * hi);
    while hi - lo > 1
        invariant
            lo < hi <= 0x4_0000_0000_0000,
            lo * lo <= n,
            n < hi * hi,
        decreases hi - lo,
    {
        let mid = lo + (hi - lo) / 2;
        assert(mid * mid <= 0x4_0000_0000_0000 * 0x4_0000_0000_0000) by (nonlinear_arith)
            requires mid <= 0x4_0000_0000_0000;
        if mid * mid <= n {
            lo = mid;
        } else {
            hi = mid;
        }
    }
    assert(hi == lo + 1);
    lo as u64
}

/// Reward multiplier, in thousandths, for an emotional score against a
/// threshold: up to 50% less below it, up to 30% more above it.
pub open spec fn emotional_multiplier(score: nat, threshold: nat) -> nat {
    if score < threshold {
        if 5 * (threshold - score) > 500 {
            500
        } else {
            (1000 - 5 * (threshold - score)) as nat
        }
    } else {
        if 3 * (score - threshold) > 300 {
            1300
        } else {
            1000 + 3 * (score - threshold) as nat
        }
    }
}

/// The reward multiplier of `emotional_score` against `threshold`, in
/// thousandths.
pub fn emotional_multiplier_permille(emotional_score: u8, threshold: u8) -> (r: u64)
    ensures
        r as nat == emotional_multiplier(emotional_score as nat, threshold as nat),
        500 <= r <= 1300,
{
    if emotional_score < threshold {
        let penalty = 5 * ((threshold - emotional_score) as u64);
        if penalty > 500 {
            500
        } else {
            1000 - penalty
        }
    } else {
        let bonus = 3 * ((emotional_score - threshold) as u64);
        if bonus > 300 {
            1300
        } else {
            1000 + bonus
        }
    }
}

} // verus!

verus! {

/// Relies on std::time::SystemTime::now: milliseconds since the Unix epoch,
/// or 0 when the clock reads earlier than the epoch.
#[verifier::external_body]
pub fn now_millis() -> (r: u64) {
    std::time::SystemTime::now()
        .duration_since(std::time::UNIX_EPOCH)
        .map(|d| d.as_millis() as u64)
        .unwrap_or(0)
}

/// Little-endian bytes of a 64-bit integer.
pub open spec fn le_bytes(x: u64) -> Seq<u8> {
    Seq::new(8, |i: int| ((x >> ((8 * i) as u64)) & 0xff) as u8)
}

/// Appends the little-endian bytes of `x` to `out`.
pub fn push_le_bytes(out: &mut Vec<u8>, x: u64)
    ensures
        final(out)@ == old(out)@ + le_bytes(x),
{
    let ghost start = out@;
    let mut i: u64 = 0;
    while i < 8
        invariant
            i <= 8,
            out@ == start + le_bytes(x).subrange(0, i as int),
        decreases 8 - i,
    {
        out.push(((x >> (8 * i)) & 0xff) as u8);
        i = i + 1;
        assert(out@ =~= start + le_bytes(x).subrange(0, i as int));
    }
    assert(le_bytes(x).subrange(0, 8) =~= le_bytes(x));
}

/// Appends bytes to `out`.
pub fn push_bytes(out: &mut Vec<u8>, bytes: &[u8])
    ensures
        final(out)@ == old(out)@ + bytes@,
{
    out.extend_from_slice(bytes);
}

} // verus!

verus! {

/// Whether two texts are equal.
pub fn text_eq(a: &str, b: &str) -> (r: bool)
    ensures
        r == (a@ == b@),
{
    a.to_owned() == b.to_owned()
}

} // verus!

