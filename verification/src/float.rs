//! Floating-point numbers as plain values.

use crate::text::{is_text, Order, lowered, slice, to_ascii_lowercase};

use vstd::prelude::*;

verus! {

/// A floating-point number: its IEEE 754 bits, and the text it is shown as.
#[derive(Debug, PartialEq, Eq)]
pub struct Float {
    pub bits: u64,
    pub text: String,
}

impl View for Float {
    type V = (u64, Seq<char>);

    open spec fn view(&self) -> (u64, Seq<char>) {
        (self.bits, self.text@)
    }
}

/// Copies a floating-point number.
pub fn copy_float(f: &Float) -> (r: Float)
    ensures
        r@ == f@,
{
    Float { bits: f.bits, text: f.text.clone() }
}

/// Whether a character is a decimal digit.
pub open spec fn is_digit(c: char) -> bool {
    '0' <= c <= '9'
}

/// The end of the run of digits that starts at a position.
pub open spec fn digits_end(s: Seq<char>, from: int) -> int
    decreases s.len() - from,
{
    if 0 <= from < s.len() && is_digit(s[from]) {
        digits_end(s, from + 1)
    } else {
        from
    }
}

/// A text without the sign it may start with.
pub open spec fn unsigned(s: Seq<char>) -> Seq<char> {
    if s.len() > 0 && (s[0] == '+' || s[0] == '-') {
        s.skip(1)
    } else {
        s
    }
}

/// Where the fraction of a decimal number ends: after the digits, the point and
/// the digits behind it.
pub open spec fn mantissa_end(s: Seq<char>) -> int {
    let a = digits_end(s, 0);
    if a < s.len() && s[a] == '.' {
        digits_end(s, a + 1)
    } else {
        a
    }
}

/// Whether the text up to its exponent holds a digit, before the point or behind it.
pub open spec fn has_mantissa(s: Seq<char>) -> bool {
    let a = digits_end(s, 0);
    a > 0 || mantissa_end(s) > a + 1
}

/// Whether a text is an exponent: `e`, a sign or none, and at least one digit.
pub open spec fn is_exponent(s: Seq<char>) -> bool {
    &&& s.len() > 0
    &&& s[0] == 'e' || s[0] == 'E'
    &&& unsigned(s.skip(1)).len() > 0
    &&& digits_end(unsigned(s.skip(1)), 0) == unsigned(s.skip(1)).len()
}

/// Whether a text without a sign is a decimal number.
pub open spec fn is_decimal_number(s: Seq<char>) -> bool {
    has_mantissa(s) && (mantissa_end(s) == s.len() || is_exponent(s.skip(mantissa_end(s))))
}

/// Whether a text without a sign names infinity or the value that is no number.
pub open spec fn is_special_number(s: Seq<char>) -> bool {
    lowered(s) == "inf"@ || lowered(s) == "infinity"@ || lowered(s) == "nan"@
}

/// Whether a text reads as a floating-point number: a sign or none, then a
/// decimal number, `inf`, `infinity` or `nan`.
pub open spec fn is_float_text(s: Seq<char>) -> bool {
    is_decimal_number(unsigned(s)) || is_special_number(unsigned(s))
}

/// Finds the end of a run of digits.
pub fn end_of_digits(s: &Vec<char>, from: usize) -> (r: usize)
    requires
        from <= s.len(),
    ensures
        r == digits_end(s@, from as int),
        from <= r <= s.len(),
        forall|k: int| from <= k < r ==> is_digit(s@[k]),
{
    let mut i: usize = from;
    while i < s.len() && '0' <= s[i] && s[i] <= '9'
        invariant
            from <= i <= s.len(),
            digits_end(s@, from as int) == digits_end(s@, i as int),
            forall|k: int| from <= k < i ==> is_digit(s@[k]),
        decreases s.len() - i,
    {
        i += 1;
    }
    i
}

/// Drops the sign at the start of a text.
pub fn drop_sign(s: &Vec<char>) -> (r: Vec<char>)
    ensures
        r@ == unsigned(s@),
{
    if s.len() > 0 && (s[0] == '+' || s[0] == '-') {
        let r: Vec<char> = slice(s, 1, s.len());
        assert(r@ =~= s@.skip(1));
        r
    } else {
        slice(s, 0, s.len())
    }
}

/// Tells whether a text is an exponent.
fn reads_exponent(s: &Vec<char>) -> (r: bool)
    ensures
        r == is_exponent(s@),
{
    if s.len() == 0 || (s[0] != 'e' && s[0] != 'E') {
        return false;
    }
    let tail: Vec<char> = slice(s, 1, s.len());
    assert(tail@ =~= s@.skip(1));
    let digits: Vec<char> = drop_sign(&tail);
    digits.len() > 0 && end_of_digits(&digits, 0) == digits.len()
}

/// Tells whether a text reads as a floating-point number.
pub fn reads_as_float(s: &Vec<char>) -> (r: bool)
    ensures
        r == is_float_text(s@),
{
    let body: Vec<char> = drop_sign(s);
    let low: Vec<char> = to_ascii_lowercase(&body);
    if is_text(&low, "inf") || is_text(&low, "infinity") || is_text(&low, "nan") {
        return true;
    }
    let a: usize = end_of_digits(&body, 0);
    let mut b: usize = a;
    if a < body.len() && body[a] == '.' {
        b = end_of_digits(&body, a + 1);
    }
    if a == 0 && b <= a + 1 {
        return false;
    }
    if b == body.len() {
        return true;
    }
    let tail: Vec<char> = slice(&body, b, body.len());
    assert(tail@ =~= body@.skip(b as int));
    reads_exponent(&tail)
}

// ── Order ──────────────────────────────────────────────────────────────────

/// The bits of positive infinity; above them lie those of no number.
pub const INFINITY: u64 = 0x7ff0_0000_0000_0000;

/// The sign bit.
pub const SIGN: u64 = 0x8000_0000_0000_0000;

/// The place of a number in the order of the numbers: both zeros are at 0, and
/// what is no number has no place.
pub open spec fn place(bits: u64) -> Option<int> {
    let magnitude = bits as int % SIGN as int;
    if magnitude > INFINITY {
        None
    } else if bits >= SIGN {
        Some(-magnitude)
    } else {
        Some(magnitude)
    }
}

/// The order of two integers.
pub open spec fn int_order(a: int, b: int) -> Order {
    if a < b {
        Order::Less
    } else if a == b {
        Order::Equal
    } else {
        Order::Greater
    }
}

/// The order of two floating-point numbers; none where one of them is no number.
pub open spec fn float_order(a: u64, b: u64) -> Option<Order> {
    match (place(a), place(b)) {
        (Some(x), Some(y)) => Some(int_order(x, y)),
        _ => None,
    }
}

/// Finds the place of a number.
pub fn place_of(bits: u64) -> (r: Option<i64>)
    ensures
        match r {
            Some(k) => place(bits) == Some(k as int),
            None => place(bits) is None,
        },
{
    let magnitude: u64 = bits % SIGN;
    if magnitude > INFINITY {
        None
    } else if bits >= SIGN {
        Some(-(magnitude as i64))
    } else {
        Some(magnitude as i64)
    }
}

/// Orders two floating-point numbers.
pub fn order_floats(a: u64, b: u64) -> (r: Option<Order>)
    ensures
        r == float_order(a, b),
{
    match (place_of(a), place_of(b)) {
        (Some(x), Some(y)) => if x < y {
            Some(Order::Less)
        } else if x == y {
            Some(Order::Equal)
        } else {
            Some(Order::Greater)
        },
        _ => None,
    }
}

// ── Integers as floating-point numbers ─────────────────────────────────────

/// The largest power of two that is at most `m`.
pub open spec fn top_bit(m: nat) -> nat
    decreases m,
{
    if m < 2 {
        1
    } else {
        2 * top_bit(m / 2)
    }
}

/// The exponent of the largest power of two that is at most `m`.
pub open spec fn top_exponent(m: nat) -> nat
    decreases m,
{
    if m < 2 {
        0
    } else {
        1 + top_exponent(m / 2)
    }
}

/// Two to the power of 52: the weight of the implicit bit of a significand.
pub const IMPLICIT: u64 = 0x10_0000_0000_0000;

/// The significand of `m` in 53 bits, rounded to the nearest one and on a tie to
/// the even one.
pub open spec fn significand(m: nat) -> nat {
    let p = top_bit(m);
    if p <= IMPLICIT {
        m * (IMPLICIT as nat / p)
    } else {
        let unit = p / IMPLICIT as nat;
        let low = m / unit;
        let rest = m % unit;
        if 2 * rest > unit || (2 * rest == unit && low % 2 == 1) {
            low + 1
        } else {
            low
        }
    }
}

/// The bits of the floating-point number nearest to an integer.
pub open spec fn int_bits(n: int) -> nat {
    let m = if n < 0 {
        (-n) as nat
    } else {
        n as nat
    };
    if m == 0 {
        0
    } else {
        (if n < 0 {
            SIGN as nat
        } else {
            0
        }) + (((top_exponent(m) + 1023) * IMPLICIT + significand(m) - IMPLICIT) as nat)
    }
}

/// `top_bit` is the power of two with the exponent `top_exponent`, and brackets
/// the number.
proof fn lemma_top_bit(m: nat)
    requires
        1 <= m,
    ensures
        top_bit(m) <= m < 2 * top_bit(m),
    decreases m,
{
    if m >= 2 {
        lemma_top_bit(m / 2);
    }
}

/// The significand of a number lies between the implicit bit and twice that.
proof fn lemma_significand(m: nat)
    requires
        1 <= m < 0x1_0000_0000_0000_0000,
    ensures
        significand(m) <= 2 * IMPLICIT,
        top_bit(m) <= IMPLICIT ==> m * (IMPLICIT as nat / top_bit(m)) <= 2 * IMPLICIT,
{
    lemma_top_bit(m);
    let p = top_bit(m);
    let w = IMPLICIT as nat;
    if p <= w {
        let k = w / p;
        assert(k * p <= w) by (nonlinear_arith)
            requires
                k == w / p,
                p >= 1,
        ;
        assert(m * k <= 2 * w) by (nonlinear_arith)
            requires
                m < 2 * p,
                k * p <= w,
                k >= 0,
        ;
    } else {
        let unit = p / w;
        lemma_power_multiple(m);
        assert(p == unit * w) by (nonlinear_arith)
            requires
                unit == p / w,
                p % w == 0,
                w > 0,
        ;
        let low = m / unit;
        assert(low < 2 * w) by (nonlinear_arith)
            requires
                low == m / unit,
                m < 2 * p,
                p == unit * w,
                unit >= 1,
        ;
    }
}

/// A power of two above two to the power of 52 is a multiple of it.
proof fn lemma_power_multiple(m: nat)
    requires
        1 <= m,
        top_bit(m) > IMPLICIT,
    ensures
        top_bit(m) % IMPLICIT as nat == 0,
        top_bit(m) / IMPLICIT as nat >= 1,
    decreases m,
{
    if top_bit(m / 2) > IMPLICIT {
        lemma_power_multiple(m / 2);
    } else {
        lemma_power_divides(m / 2);
        let q = top_bit(m / 2);
        let w = IMPLICIT as nat;
        assert(q == w) by {
            if q < w {
                // 2 * q > w and q divides w leave only q == w.
                let k = w / q;
                assert(w == k * q) by (nonlinear_arith)
                    requires
                        k == w / q,
                        w % q == 0,
                        q > 0,
                ;
                assert(k == 1) by (nonlinear_arith)
                    requires
                        w == k * q,
                        2 * q > w,
                        q > 0,
                        w > 0,
                ;
            }
        }
    }
}

/// A power of two up to two to the power of 52 divides it.
proof fn lemma_power_divides(m: nat)
    requires
        top_bit(m) <= IMPLICIT,
    ensures
        IMPLICIT as nat % top_bit(m) == 0,
        top_bit(m) >= 1,
    decreases m,
{
    lemma_top_is_power(m);
    let e = top_exponent(m);
    vstd::arithmetic::power2::lemma2_to64();
    vstd::arithmetic::power2::lemma2_to64_rest();
    if e > 52 {
        vstd::arithmetic::power2::lemma_pow2_strictly_increases(52, e);
    }
    vstd::arithmetic::power2::lemma_pow2_adds((52 - e) as nat, e);
    let a = vstd::arithmetic::power2::pow2((52 - e) as nat);
    let b = vstd::arithmetic::power2::pow2(e);
    vstd::arithmetic::power2::lemma_pow2_pos(e);
    vstd::arithmetic::div_mod::lemma_mod_multiples_basic(a as int, b as int);
}

/// `top_bit` is two to the power of `top_exponent`.
proof fn lemma_top_is_power(m: nat)
    ensures
        top_bit(m) == vstd::arithmetic::power2::pow2(top_exponent(m)),
    decreases m,
{
    if m < 2 {
        vstd::arithmetic::power2::lemma2_to64();
    } else {
        lemma_top_is_power(m / 2);
        vstd::arithmetic::power2::lemma_pow2_unfold(top_exponent(m));
    }
}

/// The exponent of a 64-bit number is below 64.
proof fn lemma_top_exponent(m: nat)
    requires
        1 <= m < 0x1_0000_0000_0000_0000,
    ensures
        top_exponent(m) < 64,
{
    lemma_top_bit(m);
    lemma_top_is_power(m);
    vstd::arithmetic::power2::lemma2_to64();
    if top_exponent(m) >= 64 {
        if top_exponent(m) > 64 {
            vstd::arithmetic::power2::lemma_pow2_strictly_increases(64, top_exponent(m));
        }
    }
}

/// Rounds an integer to the nearest floating-point number.
pub fn float_of_int(n: i64) -> (bits: u64)
    ensures
        bits == int_bits(n as int),
{
    if n == 0 {
        return 0;
    }
    let wide: i128 = n as i128;
    let m: u128 = if wide < 0 {
        (-wide) as u128
    } else {
        wide as u128
    };
    let mut q: u128 = m;
    let mut p: u128 = 1;
    let mut e: u64 = 0;
    while q >= 2
        invariant
            1 <= q <= m <= 0x8000_0000_0000_0000,
            p * q <= m,
            p >= 1,
            e <= p,
            top_bit(m as nat) == p * top_bit(q as nat),
            top_exponent(m as nat) == e + top_exponent(q as nat),
        decreases q,
    {
        let ghost half = q / 2;
        assert(p * top_bit(q as nat) == (p * 2) * top_bit(half as nat)) by (nonlinear_arith)
            requires
                top_bit(q as nat) == 2 * top_bit(half as nat),
        ;
        assert((p * 2) * half <= p * q) by (nonlinear_arith)
            requires
                half == q / 2,
                p >= 1,
                q >= 2,
        ;
        assert(p <= m) by (nonlinear_arith)
            requires
                p * q <= m,
                q >= 1,
        ;
        q = q / 2;
        p = p * 2;
        e = e + 1;
    }
    assert(p * 1 == p) by (nonlinear_arith);
    proof {
        lemma_significand(m as nat);
        lemma_top_exponent(m as nat);
        lemma_top_bit(m as nat);
    }
    let w: u128 = 0x10_0000_0000_0000;
    let s: u128 = if p <= w {
        let k: u128 = w / p;
        assert(m * k <= 2 * w);
        m * k
    } else {
        let unit: u128 = p / w;
        proof {
            lemma_power_multiple(m as nat);
        }
        let low: u128 = m / unit;
        let rest: u128 = m % unit;
        if 2 * rest > unit || (2 * rest == unit && low % 2 == 1) {
            low + 1
        } else {
            low
        }
    };
    assert(s == significand(m as nat));
    proof {
        lemma_significand_low(m as nat);
    }
    let magnitude: u64 = (e + 1023) * IMPLICIT + (s as u64) - IMPLICIT;
    if n < 0 {
        SIGN + magnitude
    } else {
        magnitude
    }
}

/// A significand holds the implicit bit.
proof fn lemma_significand_low(m: nat)
    requires
        1 <= m < 0x1_0000_0000_0000_0000,
    ensures
        significand(m) >= IMPLICIT,
{
    lemma_top_bit(m);
    let p = top_bit(m);
    let w = IMPLICIT as nat;
    if p <= w {
        lemma_power_divides(m);
        let k = w / p;
        assert(m * k >= w) by (nonlinear_arith)
            requires
                w % p == 0,
                k == w / p,
                m >= p,
                p >= 1,
        ;
    } else {
        lemma_power_multiple(m);
        let unit = p / w;
        let low = m / unit;
        assert(low >= w) by (nonlinear_arith)
            requires
                low == m / unit,
                m >= p,
                unit == p / w,
                p % w == 0,
                unit >= 1,
                w > 0,
        ;
    }
}

// ── Floating-point numbers as integers ─────────────────────────────────────

/// The integer that a floating-point number becomes when its fraction is
/// dropped, kept within the 64-bit integers; 0 for what is no number.
pub open spec fn truncated(bits: u64) -> int {
    let magnitude = bits as nat % SIGN as nat;
    let exponent = magnitude / IMPLICIT as nat;
    let s = IMPLICIT as nat + magnitude % IMPLICIT as nat;
    let whole: int = if magnitude > INFINITY || exponent < 1023 {
        0
    } else if exponent >= 1086 {
        i64::MAX + 1
    } else if exponent <= 1075 {
        s as int / vstd::arithmetic::power2::pow2((1075 - exponent) as nat) as int
    } else {
        (s * vstd::arithmetic::power2::pow2((exponent - 1075) as nat)) as int
    };
    let signed = if bits >= SIGN {
        -whole
    } else {
        whole
    };
    if signed > i64::MAX {
        i64::MAX as int
    } else {
        signed
    }
}

/// Two to a power below 64.
fn power_of_two(e: u64) -> (r: u128)
    requires
        e < 64,
    ensures
        r == vstd::arithmetic::power2::pow2(e as nat),
        1 <= r <= 0x8000_0000_0000_0000,
{
    let mut r: u128 = 1;
    let mut i: u64 = 0;
    proof {
        vstd::arithmetic::power2::lemma2_to64();
        vstd::arithmetic::power2::lemma2_to64_rest();
    }
    while i < e
        invariant
            i <= e < 64,
            r == vstd::arithmetic::power2::pow2(i as nat),
            vstd::arithmetic::power2::pow2(63) == 0x8000_0000_0000_0000,
            1 <= r <= 0x8000_0000_0000_0000,
        decreases e - i,
    {
        proof {
            vstd::arithmetic::power2::lemma_pow2_unfold((i + 1) as nat);
            if i + 1 < 63 {
                vstd::arithmetic::power2::lemma_pow2_strictly_increases((i + 1) as nat, 63);
            }
        }
        r = r * 2;
        i = i + 1;
    }
    r
}

/// Drops the fraction of a floating-point number.
pub fn int_of_float(bits: u64) -> (n: i64)
    ensures
        n == truncated(bits),
{
    let magnitude: u64 = bits % SIGN;
    let exponent: u64 = magnitude / IMPLICIT;
    let s: u128 = (IMPLICIT + magnitude % IMPLICIT) as u128;
    if magnitude > INFINITY || exponent < 1023 {
        return 0;
    }
    if exponent >= 1086 {
        return if bits >= SIGN {
            i64::MIN
        } else {
            i64::MAX
        };
    }
    let whole: u128 = if exponent <= 1075 {
        let d: u128 = power_of_two(1075 - exponent);
        assert(s / d <= s) by (nonlinear_arith)
            requires
                d >= 1,
        ;
        s / d
    } else {
        let f: u128 = power_of_two(exponent - 1075);
        proof {
            vstd::arithmetic::power2::lemma2_to64();
            if exponent - 1075 < 10 {
                vstd::arithmetic::power2::lemma_pow2_strictly_increases(
                    (exponent - 1075) as nat,
                    10,
                );
            }
        }
        assert(f <= 1024);
        assert(s * f <= 0x20_0000_0000_0000 * 1024 - 1024) by (nonlinear_arith)
            requires
                s <= 0x1f_ffff_ffff_ffff,
                f <= 1024,
        ;
        s * f
    };
    assert(whole <= i64::MAX);
    if bits >= SIGN {
        -(whole as i64)
    } else {
        whole as i64
    }
}

// ── What numbers promise ───────────────────────────────────────────────────

/// Numbers without a sign are ordered as their bits are, numbers with one the other way
/// round and below those without, both zeros are equal, and what is no number has no order.
pub proof fn law_numbers_are_ordered(a: u64, b: u64)
    ensures
        a <= INFINITY && b <= INFINITY ==> {
            &&& (float_order(a, b) == Some(Order::Less)) == (a < b)
            &&& (float_order(a, b) == Some(Order::Equal)) == (a == b)
            &&& (float_order(a, b) == Some(Order::Greater)) == (a > b)
            &&& (float_order((a + SIGN) as u64, (b + SIGN) as u64) == Some(Order::Less)) == (a > b)
            &&& (float_order((a + SIGN) as u64, b) == Some(Order::Less)) == (a > 0 || b > 0)
            &&& (float_order(a, (b + SIGN) as u64) == Some(Order::Greater)) == (a > 0 || b > 0)
            &&& float_order(0, SIGN) == Some(Order::Equal)
        },
        INFINITY < a < SIGN ==> float_order(a, b) is None && float_order(b, a) is None
            && float_order((a + SIGN) as u64, b) is None,
{
    if a < SIGN {
        assert((a + SIGN) % SIGN as int == a) by (nonlinear_arith)
            requires
                0 <= a < SIGN,
        ;
        assert(a as int % SIGN as int == a);
    }
    if b < SIGN {
        assert((b + SIGN) % SIGN as int == b) by (nonlinear_arith)
            requires
                0 <= b < SIGN,
        ;
        assert(b as int % SIGN as int == b);
    }
}

/// Larger numbers have no smaller exponents.
proof fn lemma_exponents_ascend(a: nat, b: nat)
    requires
        a <= b,
    ensures
        top_exponent(a) <= top_exponent(b),
    decreases b,
{
    if a >= 2 {
        lemma_exponents_ascend(a / 2, b / 2);
    }
}

/// An integer of at most 53 bits is kept exactly: its significand is a multiple of it.
proof fn lemma_exact(m: nat)
    requires
        1 <= m < 0x20_0000_0000_0000,
    ensures
        top_exponent(m) <= 52,
        significand(m) == m * vstd::arithmetic::power2::pow2((52 - top_exponent(m)) as nat),
        IMPLICIT <= significand(m) < 2 * IMPLICIT,
{
    lemma_top_bit(m);
    lemma_top_is_power(m);
    vstd::arithmetic::power2::lemma2_to64();
    vstd::arithmetic::power2::lemma2_to64_rest();
    let e = top_exponent(m);
    if e > 52 {
        if e > 53 {
            vstd::arithmetic::power2::lemma_pow2_strictly_increases(53, e);
        }
    }
    let p = top_bit(m);
    let w = IMPLICIT as nat;
    let k = vstd::arithmetic::power2::pow2((52 - e) as nat);
    vstd::arithmetic::power2::lemma_pow2_adds((52 - e) as nat, e);
    assert(w == k * p);
    vstd::arithmetic::power2::lemma_pow2_pos(e);
    assert(w / p == k) by (nonlinear_arith)
        requires
            w == k * p,
            p >= 1,
    ;
    if e < 52 {
        vstd::arithmetic::power2::lemma_pow2_strictly_increases(e, 52);
    }
    assert(p <= w);
    assert(m * k < 2 * w) by (nonlinear_arith)
        requires
            m < 2 * p,
            w == k * p,
            k >= 1,
    ;
    assert(m * k >= w) by (nonlinear_arith)
        requires
            m >= p,
            w == k * p,
            k >= 1,
    ;
}

/// The magnitude of an integer among the floating-point numbers.
spec fn magnitude_of(m: nat) -> int {
    (top_exponent(m) + 1023) * IMPLICIT + significand(m) - IMPLICIT
}

/// Integers of at most 53 bits keep their order.
proof fn lemma_magnitudes_ascend(a: nat, b: nat)
    requires
        1 <= a < b < 0x20_0000_0000_0000,
    ensures
        0 < magnitude_of(a) < magnitude_of(b) < INFINITY,
{
    lemma_exact(a);
    lemma_exact(b);
    lemma_exponents_ascend(a, b);
    let x = top_exponent(a);
    let y = top_exponent(b);
    if x == y {
        let k = vstd::arithmetic::power2::pow2((52 - x) as nat);
        vstd::arithmetic::power2::lemma_pow2_pos((52 - x) as nat);
        assert(a * k < b * k) by (nonlinear_arith)
            requires
                a < b,
                k >= 1,
        ;
    }
}

/// Integers of at most 53 bits stand to each other as the floating-point numbers nearest to
/// them do, and each comes back when the fraction of that number is dropped.
pub proof fn law_integers_keep_their_order(n: int, m: int)
    requires
        -0x20_0000_0000_0000 < n < 0x20_0000_0000_0000,
        -0x20_0000_0000_0000 < m < 0x20_0000_0000_0000,
    ensures
        float_order(int_bits(n) as u64, int_bits(m) as u64) == Some(
            if n < m {
                Order::Less
            } else if n == m {
                Order::Equal
            } else {
                Order::Greater
            },
        ),
        truncated(int_bits(n) as u64) == n,
{
    let a = if n < 0 {
        (-n) as nat
    } else {
        n as nat
    };
    let b = if m < 0 {
        (-m) as nat
    } else {
        m as nat
    };
    lemma_int_place(n);
    lemma_int_place(m);
    if a > 0 && b > 0 {
        if a < b {
            lemma_magnitudes_ascend(a, b);
        } else if b < a {
            lemma_magnitudes_ascend(b, a);
        }
    }
}

/// Where an integer of at most 53 bits stands among the floating-point numbers, and what it
/// comes back as.
proof fn lemma_int_place(n: int)
    requires
        -0x20_0000_0000_0000 < n < 0x20_0000_0000_0000,
    ensures
        n == 0 ==> place(int_bits(n) as u64) == Some(0int),
        n > 0 ==> magnitude_of(n as nat) > 0 && place(int_bits(n) as u64) == Some(
            magnitude_of(n as nat),
        ),
        n < 0 ==> magnitude_of((-n) as nat) > 0 && place(int_bits(n) as u64) == Some(
            -magnitude_of((-n) as nat),
        ),
        truncated(int_bits(n) as u64) == n,
{
    if n != 0 {
        let m = if n < 0 {
            (-n) as nat
        } else {
            n as nat
        };
        lemma_exact(m);
        let e = top_exponent(m);
        let g = magnitude_of(m);
        let w = IMPLICIT as int;
        let k = vstd::arithmetic::power2::pow2((52 - e) as nat);
        vstd::arithmetic::power2::lemma_pow2_pos((52 - e) as nat);
        assert(0 < g < INFINITY);
        let low = significand(m) - w;
        assert(g == (e + 1023) * w + low);
        assert(g / w == e + 1023 && g % w == low) by (nonlinear_arith)
            requires
                g == (e + 1023) * w + low,
                0 <= low < w,
        ;
        let s = significand(m) as int;
        assert(s / k as int == m) by (nonlinear_arith)
            requires
                s == m * k,
                k >= 1,
        ;
        if n < 0 {
            assert((g + SIGN) % SIGN as int == g) by (nonlinear_arith)
                requires
                    0 <= g < SIGN,
            ;
        }
    } else {
        assert(0int % SIGN as int == 0);
    }
}

} // verus!
