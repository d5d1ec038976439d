//! The IEEE-754 double closest to an integer, given by its bits.

use vstd::prelude::*;

verus! {

/// Two to the power `e`.
pub open spec fn two_to(e: nat) -> nat
    decreases e,
{
    if e == 0 {
        1
    } else {
        2 * two_to((e - 1) as nat)
    }
}

/// Powers of two add up in the exponent.
pub proof fn lemma_two_to_adds(a: nat, b: nat)
    ensures
        two_to(a + b) == two_to(a) * two_to(b),
    decreases a,
{
    if a == 0 {
        assert(1 * two_to(b) == two_to(b)) by (nonlinear_arith);
    } else {
        lemma_two_to_adds((a - 1) as nat, b);
        let h = two_to((a - 1) as nat);
        assert(two_to(a + b) == 2 * two_to((a + b - 1) as nat));
        assert(2 * (h * two_to(b)) == (2 * h) * two_to(b)) by (nonlinear_arith);
    }
}

/// Powers of two grow with the exponent.
pub proof fn lemma_two_to_grows(a: nat, b: nat)
    requires
        a <= b,
    ensures
        1 <= two_to(a) <= two_to(b),
    decreases b,
{
    if a < b {
        lemma_two_to_grows(a, (b - 1) as nat);
    } else if a > 0 {
        lemma_two_to_grows((a - 1) as nat, (a - 1) as nat);
    }
}

proof fn lemma_product(a: nat, b: nat, x: nat, y: nat)
    requires
        a == x,
        b == y,
    ensures
        a * b == x * y,
{
}

/// The powers of two that bound significands and words.
proof fn lemma_powers()
    ensures
        two_to(11) == 0x800,
        two_to(52) == 0x10_0000_0000_0000,
        two_to(53) == 0x20_0000_0000_0000,
        two_to(63) == 0x8000_0000_0000_0000,
{
    assert(two_to(1) == 2 && two_to(2) == 4 && two_to(5) == 32 && two_to(10) == 0x400) by {
        reveal_with_fuel(two_to, 11);
    }
    lemma_two_to_adds(10, 1);
    lemma_product(two_to(10), two_to(1), 0x400, 0x2);
    lemma_two_to_adds(10, 10);
    lemma_product(two_to(10), two_to(10), 0x400, 0x400);
    lemma_two_to_adds(20, 20);
    lemma_product(two_to(20), two_to(20), 0x100000, 0x100000);
    lemma_two_to_adds(40, 10);
    lemma_product(two_to(40), two_to(10), 0x10000000000, 0x400);
    lemma_two_to_adds(50, 2);
    lemma_product(two_to(50), two_to(2), 0x4000000000000, 0x4);
    lemma_two_to_adds(52, 1);
    lemma_product(two_to(52), two_to(1), 0x10000000000000, 0x2);
    lemma_two_to_adds(53, 10);
    lemma_product(two_to(53), two_to(10), 0x20000000000000, 0x400);
}

/// The exponent of the highest bit of a positive number.
pub open spec fn top_bit(m: nat) -> nat
    decreases m,
{
    if m < 2 {
        0
    } else {
        1 + top_bit(m / 2)
    }
}

/// The highest bit bounds the number from both sides.
pub proof fn lemma_top_bit(m: nat)
    requires
        m > 0,
    ensures
        two_to(top_bit(m)) <= m < two_to(top_bit(m) + 1),
    decreases m,
{
    reveal_with_fuel(two_to, 2);
    if m >= 2 {
        lemma_top_bit(m / 2);
    }
}

/// Only one exponent bounds a number from both sides.
pub proof fn lemma_top_bit_unique(m: nat, e: nat)
    requires
        two_to(e) <= m < two_to(e + 1),
    ensures
        top_bit(m) == e,
{
    lemma_two_to_grows(e, e);
    lemma_top_bit(m);
    if e < top_bit(m) {
        lemma_two_to_grows(e + 1, top_bit(m));
    } else if top_bit(m) < e {
        lemma_two_to_grows(top_bit(m) + 1, e);
    }
}

/// The quotient rounded to the nearest integer, ties to the even one.
pub open spec fn rounded(m: nat, unit: nat) -> nat {
    let q = m / unit;
    let r = m % unit;
    if 2 * r > unit || (2 * r == unit && q % 2 == 1) {
        q + 1
    } else {
        q
    }
}

/// The 53-bit significand of a positive number; one more than 53 bits where
/// rounding carries.
pub open spec fn significand(m: nat) -> nat {
    let e = top_bit(m);
    if e <= 52 {
        m * two_to((52 - e) as nat)
    } else {
        rounded(m, two_to((e - 52) as nat))
    }
}

/// The bits of the double closest to a positive number. A carry out of the
/// significand raises the exponent.
pub open spec fn magnitude_bits(m: nat) -> nat {
    ((top_bit(m) + 1022) as nat) * 0x10_0000_0000_0000 + significand(m)
}

/// The bits of the double closest to `v`, ties to the even significand.
pub open spec fn double_bits(v: i64) -> u64 {
    if v == 0 {
        0
    } else if v > 0 {
        magnitude_bits(v as nat) as u64
    } else {
        (0x8000_0000_0000_0000 + magnitude_bits((-v) as nat)) as u64
    }
}

/// The significand stays within 53 bits, up to the carry.
pub proof fn lemma_significand_range(m: nat)
    requires
        m > 0,
    ensures
        0x10_0000_0000_0000 <= significand(m) <= 0x20_0000_0000_0000,
{
    lemma_top_bit(m);
    let e = top_bit(m);
    lemma_powers();
    if e <= 52 {
        let k = (52 - e) as nat;
        lemma_two_to_adds(e, k);
        lemma_two_to_adds(e + 1, k);
        let u = two_to(k);
        let a = two_to(e);
        let b = two_to(e + 1);
        assert(a * u <= m * u <= b * u) by (nonlinear_arith)
            requires
                a <= m <= b,
        ;
    } else {
        let k = (e - 52) as nat;
        lemma_two_to_adds(52, k);
        lemma_two_to_adds(53, k);
        lemma_two_to_grows(0, k);
        let u = two_to(k);
        let q = m / u;
        let a = two_to(52);
        let b = two_to(53);
        assert(a <= q < b) by (nonlinear_arith)
            requires
                u >= 1,
                a * u <= m < b * u,
                q == m / u,
        ;
    }
}

fn magnitude(m: u64) -> (bits: u64)
    requires
        0 < m <= 0x8000_0000_0000_0000,
    ensures
        bits as nat == magnitude_bits(m as nat),
        bits < 0x8000_0000_0000_0000,
{
    let mut e: u64 = 0;
    let mut p: u64 = 1;
    while m / 2 >= p
        invariant
            p as nat == two_to(e as nat),
            1 <= p <= m <= 0x8000_0000_0000_0000,
            e < 64,
            e < p,
        decreases m - p,
    {
        proof {
            lemma_powers();
            if e >= 63 {
                lemma_two_to_grows(63, e as nat);
            }
        }
        p = p * 2;
        e = e + 1;
    }
    proof {
        assert(two_to((e + 1) as nat) == 2 * two_to(e as nat));
        lemma_top_bit_unique(m as nat, e as nat);
        lemma_significand_range(m as nat);
    }
    let sig: u64 = if e <= 52 {
        let mut s: u64 = m;
        let mut k: u64 = e;
        assert(m as nat * 1 == m as nat);
        while k < 52
            invariant
                e <= k <= 52,
                m > 0,
                s as nat == m as nat * two_to((k - e) as nat),
                significand(m as nat) == m as nat * two_to((52 - e) as nat),
                significand(m as nat) <= 0x20_0000_0000_0000,
            decreases 52 - k,
        {
            proof {
                let h = two_to((k - e) as nat);
                lemma_two_to_grows((k + 1 - e) as nat, (52 - e) as nat);
                let g = two_to((52 - e) as nat);
                assert(two_to((k + 1 - e) as nat) == 2 * h);
                let n = m as nat;
                assert(2 * (n * h) <= n * g) by (nonlinear_arith)
                    requires
                        2 * h <= g,
                ;
                assert(n * (2 * h) == 2 * (n * h)) by (nonlinear_arith);
            }
            s = s * 2;
            k = k + 1;
        }
        s
    } else {
        let mut unit: u64 = 1;
        let mut k: u64 = 52;
        while k < e
            invariant
                52 <= k <= e,
                e < 64,
                unit as nat == two_to((k - 52) as nat),
                unit <= 0x1000,
            decreases e - k,
        {
            proof {
                lemma_two_to_grows((k + 1 - 52) as nat, 11);
                lemma_powers();
            }
            unit = unit * 2;
            k = k + 1;
        }
        proof {
            lemma_two_to_grows(0, (e - 52) as nat);
        }
        let q: u64 = m / unit;
        let r: u64 = m % unit;
        if 2 * r > unit || (2 * r == unit && q % 2 == 1) {
            q + 1
        } else {
            q
        }
    };
    assert(sig as nat == significand(m as nat));
    (e + 1022) * 0x10_0000_0000_0000 + sig
}

/// Converts an integer to the bits of the closest double.
pub fn int_to_double_bits(v: i64) -> (bits: u64)
    ensures
        bits == double_bits(v),
{
    if v == 0 {
        0
    } else if v > 0 {
        magnitude(v as u64)
    } else if v == i64::MIN {
        0x8000_0000_0000_0000u64 + magnitude(0x8000_0000_0000_0000)
    } else {
        0x8000_0000_0000_0000u64 + magnitude((-v) as u64)
    }
}

/// An integer of at most 53 bits is converted exactly: the significand scaled
/// by the exponent gives the integer back.
pub proof fn law_small_integers_are_exact(m: nat)
    requires
        0 < m < 0x20_0000_0000_0000,
    ensures
        significand(m) * two_to(top_bit(m)) == m * 0x10_0000_0000_0000,
        magnitude_bits(m) / 0x10_0000_0000_0000 == top_bit(m) + 1023,
        magnitude_bits(m) % 0x10_0000_0000_0000 == significand(m) - 0x10_0000_0000_0000,
{
    lemma_top_bit(m);
    lemma_significand_range(m);
    let e = top_bit(m);
    lemma_powers();
    if e > 52 {
        lemma_two_to_grows(53, e);
    }
    let k = (52 - e) as nat;
    lemma_two_to_adds(k, e);
    let u = two_to(k);
    let a = two_to(e);
    assert((m * u) * a == m * (u * a)) by (nonlinear_arith);
    lemma_two_to_adds(e + 1, k);
    let b = two_to(e + 1);
    lemma_two_to_grows(0, k);
    assert(m * u < b * u) by (nonlinear_arith)
        requires
            m < b,
            u >= 1,
    ;
}

/// Conversion keeps the order of positive integers.
pub proof fn law_conversion_is_monotone(a: nat, b: nat)
    requires
        0 < a <= b,
    ensures
        magnitude_bits(a) <= magnitude_bits(b),
{
    lemma_top_bit(a);
    lemma_top_bit(b);
    lemma_significand_range(a);
    lemma_significand_range(b);
    let e = top_bit(a);
    let f = top_bit(b);
    if f < e {
        lemma_two_to_grows(f + 1, e);
    } else if e == f {
        if e <= 52 {
            let u = two_to((52 - e) as nat);
            assert(a * u <= b * u) by (nonlinear_arith)
                requires
                    a <= b,
            ;
        } else {
            let u = two_to((e - 52) as nat);
            lemma_two_to_grows(0, (e - 52) as nat);
            lemma_rounding_is_monotone(a, b, u);
        }
    }
}

/// Rounding keeps the order.
pub proof fn lemma_rounding_is_monotone(a: nat, b: nat, unit: nat)
    requires
        a <= b,
        unit >= 1,
    ensures
        rounded(a, unit) <= rounded(b, unit),
{
    let q = a / unit;
    let p = b / unit;
    let r = a % unit;
    let s = b % unit;
    assert(a == q * unit + r && b == p * unit + s && 0 <= r < unit && 0 <= s < unit)
        by (nonlinear_arith)
        requires
            unit >= 1,
            q == a / unit,
            p == b / unit,
            r == a % unit,
            s == b % unit,
    ;
    assert(q <= p) by (nonlinear_arith)
        requires
            q * unit + r <= p * unit + s,
            0 <= r,
            s < unit,
            unit >= 1,
    ;
    if q == p {
        assert(r <= s);
    }
}

/// The rounded quotient is a nearest one, and the even one of two that are equally near.
pub proof fn law_rounding_is_to_the_nearest(m: nat, unit: nat)
    requires
        unit >= 1,
    ensures
        2 * (rounded(m, unit) * unit) - 2 * m <= unit,
        2 * m - 2 * (rounded(m, unit) * unit) <= unit,
        2 * (rounded(m, unit) * unit) - 2 * m == unit || 2 * m - 2 * (rounded(m, unit) * unit)
            == unit ==> rounded(m, unit) % 2 == 0,
{
    let q = m / unit;
    let r = m % unit;
    assert(m == q * unit + r && 0 <= r < unit) by (nonlinear_arith)
        requires
            unit >= 1,
            q == m / unit,
            r == m % unit,
    ;
    assert((q + 1) * unit == q * unit + unit) by (nonlinear_arith);
}

/// An integer of more than 53 bits is converted to the nearest number that a
/// significand of 53 bits can express, and to the one with the even significand where
/// two are equally near.
pub proof fn law_large_integers_are_rounded_to_the_nearest(m: nat)
    requires
        m >= 0x20_0000_0000_0000,
    ensures
        top_bit(m) > 52,
        ({
            let unit = two_to((top_bit(m) - 52) as nat);
            let back = significand(m) * unit;
            &&& 2 * back - 2 * m <= unit
            &&& 2 * m - 2 * back <= unit
            &&& 2 * back - 2 * m == unit || 2 * m - 2 * back == unit ==> significand(m) % 2 == 0
        }),
{
    lemma_powers();
    lemma_top_bit(m);
    let e = top_bit(m);
    if e <= 52 {
        lemma_two_to_grows(e + 1, 53);
    }
    let k = (e - 52) as nat;
    lemma_two_to_grows(0, k);
    law_rounding_is_to_the_nearest(m, two_to(k));
}

/// Opposite integers are converted to doubles that differ in the sign alone.
pub proof fn law_opposite_integers_differ_in_sign(v: i64)
    requires
        v > 0,
    ensures
        double_bits((-v) as i64) == double_bits(v) + 0x8000_0000_0000_0000,
        double_bits(v) < 0x8000_0000_0000_0000,
        double_bits(0) == 0,
{
    let m = v as nat;
    lemma_powers();
    lemma_top_bit(m);
    lemma_significand_range(m);
    if top_bit(m) >= 63 {
        lemma_two_to_grows(63, top_bit(m));
    }
    assert(magnitude_bits(m) < 0x8000_0000_0000_0000);
}

} // verus!
