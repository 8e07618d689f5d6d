//! Double-precision numbers, held by their bits.
//!
//! Every finite number is a whole multiple of the smallest one, so its exact
//! value is an integer that counts these. Numbers are ordered, and their whole
//! part is taken, by that integer; no number is rounded.

use vstd::arithmetic::div_mod;
use vstd::arithmetic::power2;
use vstd::prelude::*;

verus! {

/// Bits below this value have no sign.
pub const SIGN: u64 = 0x8000_0000_0000_0000;

/// The bits of infinity. Those of a finite number, without the sign, are
/// smaller.
pub const INFINITY: u64 = 0x7ff0_0000_0000_0000;

/// The exponent's lowest bit.
pub const EXPONENT: u64 = 0x10_0000_0000_0000;

/// The bits of ten.
pub const TEN: u64 = 0x4024_0000_0000_0000;

/// The bits without the sign.
pub open spec fn magnitude(bits: u64) -> nat {
    (bits as nat) % (SIGN as nat)
}

/// The value of a magnitude, counted in smallest numbers.
pub open spec fn magnitude_units(m: nat) -> nat {
    let exponent = m / (EXPONENT as nat);
    let fraction = m % (EXPONENT as nat);
    if exponent == 0 {
        fraction
    } else {
        (EXPONENT as nat + fraction) * power2::pow2((exponent - 1) as nat)
    }
}

/// The value of a number, counted in smallest numbers.
pub open spec fn units(bits: u64) -> int {
    if bits < SIGN {
        magnitude_units(magnitude(bits)) as int
    } else {
        -magnitude_units(magnitude(bits))
    }
}

/// How many smallest numbers make one.
pub open spec fn one() -> nat {
    power2::pow2(1074)
}

pub open spec fn finite(bits: u64) -> bool {
    magnitude(bits) < INFINITY
}

pub fn is_finite(bits: u64) -> (r: bool)
    ensures
        r == finite(bits),
{
    bits % SIGN < INFINITY
}

proof fn magnitude_bounds(m: nat)
    ensures
        ({
            let e = m / (EXPONENT as nat);
            &&& magnitude_units(m) < EXPONENT * power2::pow2(e)
            &&& e > 0 ==> magnitude_units(m) >= EXPONENT * power2::pow2((e - 1) as nat)
        }),
{
    let e = m / (EXPONENT as nat);
    let f = m % (EXPONENT as nat);
    let p: nat = EXPONENT as nat;
    if e == 0 {
        power2::lemma2_to64();
    } else {
        let w = power2::pow2((e - 1) as nat);
        power2::lemma_pow2_pos((e - 1) as nat);
        power2::lemma_pow2_unfold(e);
        assert((p + f) * w < p * (2 * w)) by (nonlinear_arith)
            requires
                w > 0,
                f < p,
        ;
        assert((p + f) * w >= p * w) by (nonlinear_arith)
            requires
                w > 0,
                f >= 0,
        ;
    }
}

/// A greater magnitude is a greater value.
proof fn magnitudes_are_ordered(a: nat, b: nat)
    requires
        a < b,
    ensures
        magnitude_units(a) < magnitude_units(b),
{
    let p: nat = EXPONENT as nat;
    let ea = a / p;
    let eb = b / p;
    magnitude_bounds(a);
    magnitude_bounds(b);
    assert(ea <= eb);
    if ea == eb {
        if ea > 0 {
            let w = power2::pow2((ea - 1) as nat);
            let fa = a % p;
            let fb = b % p;
            power2::lemma_pow2_pos((ea - 1) as nat);
            assert(fa < fb);
            assert((p + fa) * w < (p + fb) * w) by (nonlinear_arith)
                requires
                    fa < fb,
                    w > 0,
            ;
        }
    } else {
        let lower = power2::pow2(ea);
        let upper = power2::pow2((eb - 1) as nat);
        if ea < eb - 1 {
            power2::lemma_pow2_strictly_increases(ea, (eb - 1) as nat);
        }
        assert(p * lower <= p * upper) by (nonlinear_arith)
            requires
                lower <= upper,
        ;
    }
}

/// The bits as an integer that is ordered as the numbers are.
pub open spec fn key(bits: u64) -> int {
    if bits < SIGN {
        magnitude(bits) as int
    } else {
        -magnitude(bits)
    }
}

pub fn key_of(bits: u64) -> (r: i64)
    ensures
        r == key(bits),
{
    if bits < SIGN {
        bits as i64
    } else {
        -((bits - SIGN) as i64)
    }
}

/// Numbers are ordered as their keys are.
pub proof fn keys_are_ordered(a: u64, b: u64)
    ensures
        key(a) < key(b) <==> units(a) < units(b),
        key(a) == key(b) <==> units(a) == units(b),
{
    let ma = magnitude(a);
    let mb = magnitude(b);
    if ma < mb {
        magnitudes_are_ordered(ma, mb);
    } else if mb < ma {
        magnitudes_are_ordered(mb, ma);
    }
    if ma > 0 {
        magnitudes_are_ordered(0, ma);
    }
    if mb > 0 {
        magnitudes_are_ordered(0, mb);
    }
}

pub fn is_less(a: u64, b: u64) -> (r: bool)
    ensures
        r == (units(a) < units(b)),
{
    proof {
        keys_are_ordered(a, b);
    }
    key_of(a) < key_of(b)
}

pub fn is_at_most(a: u64, b: u64) -> (r: bool)
    ensures
        r == (units(a) <= units(b)),
{
    proof {
        keys_are_ordered(a, b);
    }
    key_of(a) <= key_of(b)
}

pub proof fn ten_is_ten()
    ensures
        units(TEN) == 10 * one(),
{
    let p: nat = EXPONENT as nat;
    let m = TEN as nat;
    assert(m / p == 1026);
    assert(m % p == 0x4_0000_0000_0000);
    power2::lemma_pow2_adds(1025, 49);
    power2::lemma2_to64_rest();
    let w = power2::pow2(1025);
    assert((p + m % p) * w == 10 * (w * 0x2_0000_0000_0000)) by (nonlinear_arith)
        requires
            p == 0x10_0000_0000_0000,
            m % p == 0x4_0000_0000_0000,
    ;
}

pub proof fn zero_is_zero()
    ensures
        units(0) == 0,
{
}

/// A number below zero carries the sign.
pub proof fn negative_has_sign(bits: u64)
    ensures
        units(bits) < 0 ==> bits >= SIGN,
        units(bits) >= 0 ==> truncated(bits) >= 0,
{
    if bits >= SIGN && units(bits) >= 0 {
        power2::lemma_pow2_pos(1074);
        assert(magnitude_units(magnitude(bits)) == 0);
        div_mod::lemma_basic_div(0, one() as int);
    } else if bits < SIGN {
        power2::lemma_pow2_pos(1074);
        div_mod::lemma_div_pos_is_pos(magnitude_units(magnitude(bits)) as int, one() as int);
    }
}

/// Two to the power of 63.
pub proof fn range_end()
    ensures
        units(0x43e0_0000_0000_0000) == 0x8000_0000_0000_0000 * one(),
{
    let p: nat = EXPONENT as nat;
    let m: nat = 0x43e0_0000_0000_0000;
    assert(m / p == 1086);
    assert(m % p == 0);
    power2::lemma_pow2_adds(52, 1085);
    power2::lemma_pow2_adds(63, 1074);
    power2::lemma2_to64_rest();
}

// ---------------------------------------------------------------------------
// Whole parts
// ---------------------------------------------------------------------------

fn power_of_two(k: u64) -> (r: u64)
    requires
        k < 64,
    ensures
        r == power2::pow2(k as nat),
{
    proof {
        power2::lemma2_to64();
        power2::lemma2_to64_rest();
    }
    let mut r: u64 = 1;
    let mut i: u64 = 0;
    while i < k
        invariant
            i <= k < 64,
            r == power2::pow2(i as nat),
            power2::pow2(63) == 0x8000_0000_0000_0000,
        decreases k - i,
    {
        proof {
            power2::lemma_pow2_unfold((i + 1) as nat);
            if i + 1 < 63 {
                power2::lemma_pow2_strictly_increases((i + 1) as nat, 63);
            }
        }
        r = r * 2;
        i = i + 1;
    }
    r
}

/// Where the exponent is small the number is below one.
proof fn below_one(m: nat)
    requires
        m / (EXPONENT as nat) < 1023,
    ensures
        magnitude_units(m) < one(),
        magnitude_units(m) / one() == 0,
        magnitude_units(m) % one() == magnitude_units(m),
        magnitude_units(m) == 0 <==> m == 0,
{
    let p: nat = EXPONENT as nat;
    let e = m / p;
    magnitude_bounds(m);
    power2::lemma2_to64_rest();
    power2::lemma_pow2_adds(52, 1022);
    power2::lemma_pow2_pos(1022);
    let w = power2::pow2(e);
    let v = power2::pow2(1022);
    if e < 1022 {
        power2::lemma_pow2_strictly_increases(e, 1022);
    }
    assert(p * w <= p * v) by (nonlinear_arith)
        requires
            w <= v,
    ;
    assert(p * v == one());
    div_mod::lemma_basic_div(magnitude_units(m) as int, one() as int);
    div_mod::lemma_small_mod(magnitude_units(m), one());
    if m > 0 {
        magnitudes_are_ordered(0, m);
    }
}

/// Where the exponent is large the number does not fit 63 bits.
proof fn too_large(m: nat)
    requires
        m / (EXPONENT as nat) >= 1086,
    ensures
        magnitude_units(m) / one() >= 0x8000_0000_0000_0000,
{
    let p: nat = EXPONENT as nat;
    let e = m / p;
    magnitude_bounds(m);
    power2::lemma2_to64();
    power2::lemma2_to64_rest();
    power2::lemma_pow2_adds(52, 1085);
    power2::lemma_pow2_adds(63, 1074);
    power2::lemma_pow2_pos(1074);
    let w = power2::pow2((e - 1) as nat);
    let v = power2::pow2(1085);
    if 1085 < e - 1 {
        power2::lemma_pow2_strictly_increases(1085, (e - 1) as nat);
    }
    assert(p * w >= p * v) by (nonlinear_arith)
        requires
            w >= v,
    ;
    let u = magnitude_units(m) as int;
    let o = one() as int;
    let q: int = 0x8000_0000_0000_0000;
    assert(u >= q * o);
    div_mod::lemma_div_is_ordered(q * o, u, o);
    div_mod::lemma_div_by_multiple(q, o);
}

/// A number whose exponent is in between.
proof fn fits(m: nat)
    requires
        1023 <= m / (EXPONENT as nat) < 1086,
    ensures
        ({
            let e = m / (EXPONENT as nat);
            let mantissa = EXPONENT as nat + m % (EXPONENT as nat);
            if e >= 1075 {
                &&& magnitude_units(m) / one() == mantissa * power2::pow2((e - 1075) as nat)
                &&& magnitude_units(m) % one() == 0
            } else {
                &&& magnitude_units(m) / one() == mantissa / power2::pow2((1075 - e) as nat)
                &&& magnitude_units(m) % one() == 0 <==> mantissa % power2::pow2((1075 - e) as nat) == 0
            }
        }),
{
    let p: nat = EXPONENT as nat;
    let e = m / p;
    let mantissa: nat = p + m % p;
    let w = power2::pow2((e - 1) as nat);
    let u = magnitude_units(m);
    assert(u == mantissa * w);
    power2::lemma_pow2_pos(1074);
    power2::lemma_pow2_pos((e - 1) as nat);
    if e >= 1075 {
        let s = power2::pow2((e - 1075) as nat);
        power2::lemma_pow2_adds((e - 1075) as nat, 1074);
        assert(mantissa * (s * one()) == (mantissa * s) * one()) by (nonlinear_arith);
        div_mod::lemma_div_by_multiple((mantissa * s) as int, one() as int);
        div_mod::lemma_mod_multiples_basic(
            (mantissa * s) as int,
            one() as int,
        );
    } else {
        let d = power2::pow2((1075 - e) as nat);
        power2::lemma_pow2_pos((1075 - e) as nat);
        power2::lemma_pow2_adds((e - 1) as nat, (1075 - e) as nat);
        assert(u == w * mantissa) by (nonlinear_arith)
            requires
                u == mantissa * w,
        ;
        div_mod::lemma_div_multiples_vanish_quotient(
            w as int,
            mantissa as int,
            d as int,
        );
        div_mod::lemma_truncate_middle(mantissa as int, w as int, d as int);
        let rest = mantissa % d;
        assert(w * rest == 0 <==> rest == 0) by (nonlinear_arith)
            requires
                w > 0,
        ;
    }
}

/// The whole part of a magnitude, where it fits 63 bits.
fn whole_part(m: u64) -> (r: Option<u64>)
    requires
        m < SIGN,
    ensures
        match r {
            Some(n) => n == magnitude_units(m as nat) / one() && n < SIGN,
            None => magnitude_units(m as nat) / one() >= SIGN,
        },
{
    let e: u64 = m / EXPONENT;
    let mantissa: u64 = EXPONENT + m % EXPONENT;
    if e < 1023 {
        proof {
            below_one(m as nat);
        }
        Some(0)
    } else if e >= 1086 {
        proof {
            too_large(m as nat);
        }
        None
    } else if e >= 1075 {
        let s: u64 = power_of_two(e - 1075);
        proof {
            fits(m as nat);
            power2::lemma2_to64();
            if e - 1075 < 10 {
                power2::lemma_pow2_strictly_increases((e - 1075) as nat, 10);
            }
            assert(mantissa * s < SIGN) by (nonlinear_arith)
                requires
                    mantissa < 0x20_0000_0000_0000,
                    s <= 0x400,
                    SIGN == 0x8000_0000_0000_0000,
            ;
        }
        Some(mantissa * s)
    } else {
        let d: u64 = power_of_two(1075 - e);
        proof {
            fits(m as nat);
            power2::lemma_pow2_pos((1075 - e) as nat);
            div_mod::lemma_div_is_ordered_by_denominator(
                mantissa as int,
                1,
                d as int,
            );
        }
        Some(mantissa / d)
    }
}

/// A number without its fraction.
pub open spec fn truncated(bits: u64) -> int {
    let w = magnitude_units(magnitude(bits)) / one();
    if bits < SIGN {
        w as int
    } else {
        -(w as int)
    }
}

/// `n`, or the end of the range of `i64` that is next to it.
pub open spec fn clamped(n: int) -> int {
    if n > i64::MAX {
        i64::MAX as int
    } else if n < i64::MIN {
        i64::MIN as int
    } else {
        n
    }
}

/// A number without its fraction, as far as `i64` reaches.
pub fn truncate(bits: u64) -> (r: i64)
    ensures
        r == clamped(truncated(bits)),
{
    match whole_part(bits % SIGN) {
        Some(n) => if bits < SIGN {
            n as i64
        } else {
            -(n as i64)
        },
        None => if bits < SIGN {
            i64::MAX
        } else {
            i64::MIN
        },
    }
}

/// A number without a fraction.
pub open spec fn whole(bits: u64) -> bool {
    magnitude_units(magnitude(bits)) % one() == 0
}

pub fn is_whole(bits: u64) -> (r: bool)
    ensures
        r == whole(bits),
{
    let m: u64 = bits % SIGN;
    let e: u64 = m / EXPONENT;
    let mantissa: u64 = EXPONENT + m % EXPONENT;
    if e < 1023 {
        proof {
            below_one(m as nat);
        }
        m == 0
    } else if e >= 1075 {
        proof {
            if e < 1086 {
                fits(m as nat);
            } else {
                large_is_whole(m as nat);
            }
        }
        true
    } else {
        let d: u64 = power_of_two(1075 - e);
        proof {
            fits(m as nat);
            power2::lemma_pow2_pos((1075 - e) as nat);
        }
        mantissa % d == 0
    }
}

proof fn large_is_whole(m: nat)
    requires
        m / (EXPONENT as nat) >= 1075,
    ensures
        magnitude_units(m) % one() == 0,
{
    let p: nat = EXPONENT as nat;
    let e = m / p;
    let mantissa: nat = p + m % p;
    let s = power2::pow2((e - 1075) as nat);
    power2::lemma_pow2_pos(1074);
    power2::lemma_pow2_adds((e - 1075) as nat, 1074);
    assert(mantissa * (s * one()) == (mantissa * s) * one()) by (nonlinear_arith);
    div_mod::lemma_mod_multiples_basic((mantissa * s) as int, one() as int);
}

// ---------------------------------------------------------------------------
// Laws
// ---------------------------------------------------------------------------

/// The whole part of a number is not further from zero than the number, and by
/// less than one nearer to it.
pub proof fn the_whole_part_is_within_one(bits: u64)
    ensures
        units(bits) >= 0 && bits < SIGN ==> truncated(bits) * one() <= units(bits) < (truncated(
            bits,
        ) + 1) * one(),
        bits >= SIGN ==> (truncated(bits) - 1) * one() < units(bits) <= truncated(bits) * one(),
        whole(bits) <==> units(bits) == truncated(bits) * one(),
{
    let m = magnitude_units(magnitude(bits)) as int;
    let o = one() as int;
    power2::lemma_pow2_pos(1074);
    div_mod::lemma_fundamental_div_mod(m, o);
    let w = m / o;
    assert(o * w == w * o) by (nonlinear_arith);
    assert((w + 1) * o == w * o + o) by (nonlinear_arith);
    assert((-w) * o == -(w * o)) by (nonlinear_arith);
    assert((-w - 1) * o == -(w * o) - o) by (nonlinear_arith);
    div_mod::lemma_mod_bound(m, o);
}

/// The smallest number is the unit, and zero is nothing.
pub proof fn the_smallest_number_is_the_unit()
    ensures
        units(1) == 1,
        units(0) == 0,
{
}

/// The sign turns a number round.
pub proof fn the_sign_turns_a_number_round(bits: u64)
    requires
        bits < SIGN,
    ensures
        units((bits + SIGN) as u64) == -units(bits),
        finite((bits + SIGN) as u64) == finite(bits),
{
    assert((bits + SIGN) % (SIGN as int) == bits as int) by (nonlinear_arith)
        requires
            0 <= bits < SIGN,
            SIGN == 0x8000_0000_0000_0000u64,
    ;
}

/// One more in the exponent is twice the number.
pub proof fn exponents_double(bits: u64)
    requires
        EXPONENT <= bits,
        bits + EXPONENT < SIGN,
    ensures
        units((bits + EXPONENT) as u64) == 2 * units(bits),
{
    let b = bits as int;
    let e = EXPONENT as int;
    let next = b + e;
    assert(bits as nat % (SIGN as nat) == bits as nat) by (nonlinear_arith)
        requires
            0 <= bits < SIGN,
    ;
    assert((bits + EXPONENT) as nat % (SIGN as nat) == (bits + EXPONENT) as nat)
        by (nonlinear_arith)
        requires
            0 <= bits + EXPONENT < SIGN,
    ;
    div_mod::lemma_div_plus_one(b, e);
    div_mod::lemma_mod_add_multiples_vanish(b, e);
    let x = b / e;
    assert(x >= 1) by (nonlinear_arith)
        requires
            x == b / e,
            b >= e,
            e > 0,
    ;
    assert(next / e == x + 1);
    assert(next % e == b % e);
    power2::lemma_pow2_unfold(x as nat);
    let p = power2::pow2((x - 1) as nat) as int;
    let f = e + b % e;
    assert(f * (2 * p) == 2 * (f * p)) by (nonlinear_arith);
}

/// The number one has the value that counts are taken in.
pub proof fn one_is_one()
    ensures
        units(0x3ff0_0000_0000_0000) == one(),
        truncated(0x3ff0_0000_0000_0000) == 1,
        whole(0x3ff0_0000_0000_0000),
{
    let p: nat = EXPONENT as nat;
    let m = 0x3ff0_0000_0000_0000nat;
    assert(m / p == 1023);
    assert(m % p == 0);
    power2::lemma_pow2_adds(1022, 52);
    power2::lemma2_to64_rest();
    power2::lemma_pow2_pos(1074);
    let w = power2::pow2(1022);
    assert(p * w == w * p) by (nonlinear_arith);
    let o = one() as int;
    assert(o / o == 1) by (nonlinear_arith)
        requires
            o > 0,
    ;
    assert(o % o == 0) by (nonlinear_arith)
        requires
            o > 0,
    ;
}

} // verus!
