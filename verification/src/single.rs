//! Single-precision values carried as their bit patterns.
//!
//! Frame parameters, the render scale and the sharpness are IEEE 754
//! single-precision numbers. Here such a number is its 32-bit pattern, and a
//! non-negative finite one is modelled by its magnitude in units of 2^-149,
//! the smallest positive value. In those units every number is an integer,
//! and the rounding of an exact result is [`rounded`].

use vstd::arithmetic::{div_mod, power2};
use vstd::prelude::*;

verus! {

/// A single-precision number, by its bit pattern.
#[derive(Debug, Clone, Copy, PartialEq, Eq, Structural)]
pub struct Single {
    pub bits: u32,
}

/// 2^n.
pub open spec fn pow2(n: nat) -> nat {
    vstd::arithmetic::power2::pow2(n)
}

/// Distance between neighbouring 24-bit significands around `n`.
pub open spec fn quantum(n: nat) -> nat
    decreases n,
{
    if n < 0x100_0000 {
        1
    } else {
        2 * quantum(n / 2)
    }
}

/// The number with at most 24 significant bits that is nearest to `n / d`;
/// of two equally near, the one with the even significand.
pub open spec fn rounded_ratio(n: nat, d: nat) -> nat
    recommends
        d > 0,
{
    let u = quantum(n / d);
    let q = n / (d * u);
    let r = n % (d * u);
    if 2 * r > d * u || (2 * r == d * u && q % 2 == 1) {
        (q + 1) * u
    } else {
        q * u
    }
}

/// `n` rounded to 24 significant bits, ties to even.
pub open spec fn rounded(n: nat) -> nat {
    rounded_ratio(n, 1)
}

impl Single {
    /// The exponent field.
    pub open spec fn exponent(self) -> nat {
        ((self.bits / 0x80_0000) % 256) as nat
    }

    /// The fraction field.
    pub open spec fn fraction(self) -> nat {
        (self.bits % 0x80_0000) as nat
    }

    /// The sign bit is set.
    pub open spec fn negative(self) -> bool {
        self.bits >= 0x8000_0000
    }

    /// The pattern denotes no number.
    pub open spec fn is_nan(self) -> bool {
        self.exponent() == 255 && self.fraction() != 0
    }

    /// The absolute value in units of 2^-149.
    pub open spec fn magnitude(self) -> nat {
        if self.exponent() == 0 {
            self.fraction()
        } else {
            (self.fraction() + 0x80_0000) * pow2((self.exponent() - 1) as nat)
        }
    }
}

/// 1.0 in units of 2^-149.
pub open spec fn one() -> nat {
    pow2(149)
}

/// Zero.
pub const ZERO_BITS: u32 = 0;

/// 0.25.
pub const QUARTER_BITS: u32 = 0x3E80_0000;

/// 0.5.
pub const HALF_BITS: u32 = 0x3F00_0000;

/// 1.0.
pub const ONE_BITS: u32 = 0x3F80_0000;

/// The single-precision number nearest to 0.05.
pub const TWENTIETH_BITS: u32 = 0x3D4C_CCCD;

/// The single-precision number nearest to 0.95.
pub const NINETEEN_TWENTIETHS_BITS: u32 = 0x3F73_3333;

/// 8192.0.
pub const LONGEST_BITS: u32 = 0x4600_0000;

/// The single-precision number nearest to 0.1.
pub const TENTH_BITS: u32 = 0x3DCC_CCCD;

proof fn lemma_quantum_pow2(n: nat) -> (j: nat)
    ensures
        quantum(n) == pow2(j),
    decreases n,
{
    if n < 0x100_0000 {
        power2::lemma2_to64();
        0
    } else {
        let k = lemma_quantum_pow2(n / 2);
        power2::lemma_pow2_unfold(k + 1);
        k + 1
    }
}

/// A number with `24 + j` bits has quantum 2^j.
proof fn lemma_quantum_is(n: nat, j: nat)
    requires
        pow2(23 + j) <= n < pow2(24 + j),
    ensures
        quantum(n) == pow2(j),
    decreases j,
{
    power2::lemma2_to64();
    if j > 0 {
        let i = (j - 1) as nat;
        power2::lemma_pow2_unfold(23 + j);
        power2::lemma_pow2_unfold(24 + j);
        power2::lemma_pow2_unfold(j);
        power2::lemma_pow2_pos(i);
        assert(23 + i == (23 + j) - 1);
        assert(24 + i == (24 + j) - 1);
        power2::lemma_pow2_adds(23, j);
        power2::lemma_pow2_pos(j);
        assert(pow2(23) == 0x80_0000);
        assert(n >= 0x100_0000) by {
            assert(pow2(23 + j) >= 0x80_0000 * 2) by {
                assert(pow2(j) >= 2);
            }
        }
        lemma_quantum_is(n / 2, i);
    }
}

proof fn lemma_quantum_double(n: nat)
    ensures
        n >= 0x80_0000 ==> quantum(2 * n) == 2 * quantum(n),
{
    assert((2 * n) / 2 == n);
}

/// Rounding of a ratio, given the quotient and remainder by its quantum.
proof fn lemma_rounded_ratio_is(n: nat, d: nat, u: nat, q: nat, r: nat)
    requires
        d > 0,
        u > 0,
        u == quantum(n / d),
        n == q * (d * u) + r,
        r < d * u,
    ensures
        rounded_ratio(n, d) == (if 2 * r > d * u || (2 * r == d * u && q % 2 == 1) {
            (q + 1) * u
        } else {
            q * u
        }),
{
    div_mod::lemma_fundamental_div_mod_converse(n as int, (d * u) as int, q as int, r as int);
}

/// Rounding, given the quotient and remainder by the quantum.
proof fn lemma_rounded_is(n: nat, u: nat, q: nat, r: nat)
    requires
        u > 0,
        u == quantum(n),
        n == q * u + r,
        r < u,
    ensures
        rounded(n) == (if 2 * r > u || (2 * r == u && q % 2 == 1) {
            (q + 1) * u
        } else {
            q * u
        }),
{
    assert(n / 1 == n);
    assert(1 * u == u);
    lemma_rounded_ratio_is(n, 1, u, q, r);
}

/// Numbers below 2^24 are exact.
proof fn lemma_rounded_small(n: nat)
    requires
        n < 0x100_0000,
    ensures
        rounded(n) == n,
{
    lemma_rounded_is(n, 1, n, 0);
}

/// Rounding commutes with doubling.
proof fn lemma_rounded_double(n: nat)
    ensures
        rounded(2 * n) == 2 * rounded(n),
{
    if n >= 0x80_0000 {
        lemma_quantum_double(n);
        let k = lemma_quantum_pow2(n);
        power2::lemma_pow2_pos(k);
        let u = quantum(n);
        let q = n / u;
        let r = n % u;
        div_mod::lemma_fundamental_div_mod(n as int, u as int);
        assert(n == q * u + r) by (nonlinear_arith)
            requires
                n == u * q + r,
        ;
        assert(2 * n == q * (2 * u) + 2 * r) by (nonlinear_arith)
            requires
                n == q * u + r,
        ;
        lemma_rounded_is(n, u, q, r);
        lemma_rounded_is(2 * n, 2 * u, q, 2 * r);
        assert((q + 1) * (2 * u) == 2 * ((q + 1) * u)) by (nonlinear_arith);
        assert(q * (2 * u) == 2 * (q * u)) by (nonlinear_arith);
    } else {
        lemma_rounded_small(n);
        lemma_rounded_small(2 * n);
    }
}

/// Rounding commutes with a shift.
pub proof fn rounding_scales(n: nat, k: nat)
    ensures
        rounded(n * pow2(k)) == rounded(n) * pow2(k),
    decreases k,
{
    if k == 0 {
        power2::lemma2_to64();
        assert(n * 1 == n);
        assert(rounded(n) * 1 == rounded(n));
    } else {
        let i = (k - 1) as nat;
        rounding_scales(n, i);
        lemma_rounded_double(n * pow2(i));
        power2::lemma_pow2_unfold(k);
        assert(n * pow2(k) == 2 * (n * pow2(i))) by (nonlinear_arith)
            requires
                pow2(k) == 2 * pow2(i),
        ;
        assert(rounded(n) * pow2(k) == 2 * (rounded(n) * pow2(i))) by (nonlinear_arith)
            requires
                pow2(k) == 2 * pow2(i),
        ;
    }
}

/// Numbers of at most 24 bits, and their multiples by powers of two, are
/// kept by rounding.
pub proof fn rounding_keeps(m: nat, k: nat)
    requires
        m <= 0x100_0000,
    ensures
        rounded(m * pow2(k)) == m * pow2(k),
{
    rounding_scales(m, k);
    if m == 0x100_0000 {
        assert(quantum(0x80_0000) == 1);
        assert(quantum(m) == 2);
        lemma_rounded_is(m, 2, 0x80_0000, 0);
    } else {
        lemma_rounded_small(m);
    }
}

/// `a * 2^i * 2^j == a * 2^(i + j)`.
proof fn lemma_shift_add(a: nat, i: nat, j: nat)
    ensures
        (a * pow2(i)) * pow2(j) == a * pow2(i + j),
{
    power2::lemma_pow2_adds(i, j);
    assert((a * pow2(i)) * pow2(j) == a * (pow2(i) * pow2(j))) by (nonlinear_arith);
}

/// `a * 2^0 == a`.
proof fn lemma_shift_zero(a: nat)
    ensures
        a * pow2(0) == a,
{
    power2::lemma2_to64();
    assert(a * 1 == a);
}

/// `a * 2^i < b * 2^j` whenever `a < b` and `i <= j`.
proof fn lemma_shift_less(a: nat, i: nat, b: nat, j: nat)
    requires
        a < b,
        i <= j,
    ensures
        a * pow2(i) < b * pow2(j),
{
    let k = (j - i) as nat;
    power2::lemma_pow2_adds(i, k);
    power2::lemma_pow2_pos(i);
    power2::lemma_pow2_pos(k);
    assert(a * pow2(i) < b * (pow2(i) * pow2(k))) by (nonlinear_arith)
        requires
            a < b,
            pow2(i) > 0,
            pow2(k) > 0,
    ;
}

/// The bit patterns of non-negative numbers are ordered as the numbers are.
pub proof fn bits_order_magnitudes(a: Single, b: Single)
    requires
        !a.negative(),
        !b.negative(),
        a.bits < b.bits,
    ensures
        a.magnitude() < b.magnitude(),
{
    let (ea, eb) = (a.exponent(), b.exponent());
    let (fa, fb) = (a.fraction(), b.fraction());
    assert(ea == a.bits / 0x80_0000);
    assert(eb == b.bits / 0x80_0000);
    assert(a.bits == ea * 0x80_0000 + fa);
    assert(b.bits == eb * 0x80_0000 + fb);
    if ea == eb {
        if ea > 0 {
            lemma_shift_less(fa + 0x80_0000, (ea - 1) as nat, fb + 0x80_0000, (eb - 1) as nat);
        }
    } else if ea == 0 {
        power2::lemma_pow2_pos((eb - 1) as nat);
        assert((fb + 0x80_0000) * pow2((eb - 1) as nat) >= 0x80_0000) by (nonlinear_arith)
            requires
                pow2((eb - 1) as nat) >= 1,
        ;
    } else {
        power2::lemma_pow2_unfold(ea);
        let x = pow2((ea - 1) as nat);
        lemma_shift_less(fa + 0x80_0000, (ea - 1) as nat, 0x100_0000, (ea - 1) as nat);
        assert(0x100_0000 * x == 0x80_0000 * pow2(ea)) by (nonlinear_arith)
            requires
                pow2(ea) == 2 * x,
        ;
        if ea == eb - 1 {
            assert((fb + 0x80_0000) * pow2(ea) >= 0x80_0000 * pow2(ea)) by (nonlinear_arith);
        } else {
            lemma_shift_less(0x80_0000, ea, fb + 0x80_0001, (eb - 1) as nat);
            let y = pow2((eb - 1) as nat);
            assert(y >= pow2(ea)) by {
                let k = (eb - 1 - ea) as nat;
                power2::lemma_pow2_adds(ea, k);
                power2::lemma_pow2_pos(k);
                assert(pow2(ea) * pow2(k) >= pow2(ea)) by (nonlinear_arith)
                    requires
                        pow2(k) >= 1,
                ;
            }
            assert((fb + 0x80_0000) * y >= 0x80_0000 * pow2(ea)) by (nonlinear_arith)
                requires
                    y >= pow2(ea),
            ;
        }
    }
}

/// A non-negative number is pinned by its magnitude.
pub proof fn magnitude_pins_bits(a: Single, b: Single)
    requires
        !a.negative(),
        !b.negative(),
        a.magnitude() == b.magnitude(),
    ensures
        a == b,
{
    if a.bits < b.bits {
        bits_order_magnitudes(a, b);
    } else if b.bits < a.bits {
        bits_order_magnitudes(b, a);
    }
}

/// The magnitudes of the named constants.
pub proof fn constant_magnitudes()
    ensures
        (Single { bits: ZERO_BITS }).magnitude() == 0,
        (Single { bits: QUARTER_BITS }).magnitude() == pow2(147),
        (Single { bits: HALF_BITS }).magnitude() == pow2(148),
        (Single { bits: ONE_BITS }).magnitude() == one(),
        (Single { bits: TWENTIETH_BITS }).magnitude() == 13421773 * pow2(121),
        (Single { bits: TENTH_BITS }).magnitude() == 13421773 * pow2(122),
        (Single { bits: NINETEEN_TWENTIETHS_BITS }).magnitude() == 15938355 * pow2(125),
        (Single { bits: LONGEST_BITS }).magnitude() == pow2(162),
{
    power2::lemma2_to64();
    power2::lemma_pow2_adds(23, 139);
    power2::lemma_pow2_adds(23, 124);
    power2::lemma_pow2_adds(23, 125);
    power2::lemma_pow2_adds(23, 126);
}

/// Rounds `n / d` and splits the result into a significand and a shift.
fn ratio_parts(n: u64, d: u64) -> (r: (u64, u32))
    requires
        n < 0x4000_0000_0000_0000,
        0 < d <= 0x4_0000_0000_0000,
    ensures
        r.0 <= 0x100_0000,
        r.1 <= 40,
        rounded_ratio(n as nat, d as nat) == r.0 * pow2(r.1 as nat),
        r.1 > 0 ==> (d * pow2(r.1 as nat)) * 0x80_0000 <= n,
{
    let mut q: u64 = n / d;
    let mut step: u64 = d;
    let mut k: u32 = 0;
    let ghost whole = n as nat / d as nat;
    proof {
        power2::lemma2_to64();
        lemma_shift_zero(d as nat);
        assert(1 * quantum(whole) == quantum(whole));
    }
    while q >= 0x100_0000
        invariant
            0 < d,
            step > 0,
            step == d * pow2(k as nat),
            k <= 39,
            n < 0x4000_0000_0000_0000,
            q == n / step,
            whole == n as nat / d as nat,
            quantum(whole) == pow2(k as nat) * quantum(q as nat),
            k > 0 ==> step * 0x80_0000 <= n,
        decreases q,
    {
        proof {
            let u = pow2(k as nat);
            power2::lemma2_to64_rest();
            power2::lemma_pow2_unfold((k + 1) as nat);
            div_mod::lemma_fundamental_div_mod(n as int, step as int);
            assert(step * 0x100_0000 <= n) by (nonlinear_arith)
                requires
                    0x100_0000 <= q,
                    n == step * q + n % step,
                    n % step >= 0,
                    0 < step,
            ;
            assert(u <= step) by (nonlinear_arith)
                requires
                    step == d * u,
                    0 < d,
            ;
            div_mod::lemma_div_denominator(n as int, step as int, 2);
            let h = q / 2;
            assert(u * (2 * quantum(h as nat)) == (2 * u) * quantum(h as nat)) by (nonlinear_arith);
            assert(2 * (d * u) == d * (2 * u)) by (nonlinear_arith);
            assert(k < 39);
        }
        q = q / 2;
        step = step * 2;
        k = k + 1;
    }
    proof {
        let u = pow2(k as nat);
        power2::lemma_pow2_pos(k as nat);
        div_mod::lemma_fundamental_div_mod(n as int, step as int);
        assert(n == q * step + n % step) by (nonlinear_arith)
            requires
                n == step * q + n % step,
        ;
        assert(u * quantum(q as nat) == u) by (nonlinear_arith)
            requires
                quantum(q as nat) == 1,
        ;
        lemma_rounded_ratio_is(n as nat, d as nat, u, q as nat, (n % step) as nat);
    }
    let r: u64 = n % step;
    if r > step - r || (r == step - r && q % 2 == 1) {
        (q + 1, k)
    } else {
        (q, k)
    }
}

/// Rounds `n` and splits the result into a significand and a shift.
fn round_parts(n: u64) -> (r: (u64, u32))
    requires
        n < 0x4000_0000_0000_0000,
    ensures
        r.0 <= 0x100_0000,
        r.1 <= 40,
        rounded(n as nat) == r.0 * pow2(r.1 as nat),
        n < 0x100_0000 ==> r.1 == 0,
        r.1 > 0 ==> pow2(r.1 as nat) * 0x80_0000 <= n,
{
    let r = ratio_parts(n, 1);
    proof {
        if r.1 > 0 {
            power2::lemma_pow2_unfold(r.1 as nat);
            power2::lemma_pow2_pos((r.1 - 1) as nat);
        }
    }
    r
}

/// A finite or infinite non-negative number.
pub open spec fn counts(s: Single) -> bool {
    !s.negative() && !s.is_nan()
}

/// `s < bound` for a non-negative `bound`.
pub open spec fn below(s: Single, bound: Single) -> bool {
    &&& !s.is_nan()
    &&& if s.negative() {
        s.magnitude() + bound.magnitude() > 0
    } else {
        s.magnitude() < bound.magnitude()
    }
}

/// `s > bound` for a non-negative `bound`.
pub open spec fn above(s: Single, bound: Single) -> bool {
    !s.is_nan() && !s.negative() && s.magnitude() > bound.magnitude()
}

/// `s` clamped into `[lo, hi]`; a pattern that is no number stays as it is.
pub open spec fn clamped(s: Single, lo: Single, hi: Single) -> Single {
    if below(s, lo) {
        lo
    } else if above(s, hi) {
        hi
    } else {
        s
    }
}

/// A requested render scale, clamped into `[0.25, 1.0]`.
pub open spec fn requested_scale(s: Single) -> Single {
    clamped(s, Single { bits: QUARTER_BITS }, Single { bits: ONE_BITS })
}

/// A requested sharpness, clamped into `[0.0, 1.0]`.
pub open spec fn requested_unit(s: Single) -> Single {
    clamped(s, Single { bits: ZERO_BITS }, Single { bits: ONE_BITS })
}

/// What a clamp into `[0.25, 1.0]` can leave.
pub open spec fn is_scale(s: Single) -> bool {
    s.is_nan() || (!s.negative() && pow2(147) <= s.magnitude() <= one())
}

/// What a clamp into `[0.0, 1.0]` can leave.
pub open spec fn is_unit(s: Single) -> bool {
    s.is_nan() || (s.magnitude() <= one() && (s.negative() ==> s.magnitude() == 0))
}

/// The smaller of two naturals.
pub open spec fn smaller(a: nat, b: nat) -> nat {
    if a <= b {
        a
    } else {
        b
    }
}

/// The larger of two naturals.
pub open spec fn larger(a: nat, b: nat) -> nat {
    if a >= b {
        a
    } else {
        b
    }
}

/// `a - b`, or zero where that would be negative.
pub open spec fn minus(a: nat, b: nat) -> nat {
    if a >= b {
        (a - b) as nat
    } else {
        0
    }
}

/// A dimension times a magnitude in single precision, truncated to an
/// integer: the dimension is rounded, then the product is rounded.
pub open spec fn scaled(dim: u32, magnitude: nat) -> nat {
    smaller(rounded(rounded(dim as nat) * magnitude) / one(), u32::MAX as nat)
}

/// A dimension scaled and truncated. Nothing is left of it when the scale is
/// no number.
pub open spec fn extent(dim: u32, scale: Single) -> nat {
    if scale.is_nan() {
        0
    } else {
        scaled(dim, scale.magnitude())
    }
}

/// `s` is the integer `n`, rounded to single precision.
pub open spec fn is_conversion(n: u32, s: Single) -> bool {
    !s.negative() && s.magnitude() == rounded(n as nat) * one()
}

/// The integer `n` as a single-precision number.
pub open spec fn of_u32(n: u32) -> Single {
    choose|s: Single| #[trigger] is_conversion(n, s)
}

/// A flag converts to zero or one.
pub proof fn a_flag_converts_exactly(flag: u32)
    requires
        flag <= 1,
    ensures
        of_u32(flag).bits == if flag == 1 {
            ONE_BITS
        } else {
            ZERO_BITS
        },
{
    constant_magnitudes();
    lemma_rounded_small(flag as nat);
    let s = Single {
        bits: if flag == 1 {
            ONE_BITS
        } else {
            ZERO_BITS
        },
    };
    assert(is_conversion(flag, s));
    magnitude_pins_bits(s, of_u32(flag));
}

/// Splits a finite number into significand and shift.
fn parts(s: Single) -> (r: (u64, u32))
    requires
        s.exponent() < 255,
    ensures
        r.0 < 0x100_0000,
        r.1 <= 253,
        s.magnitude() == r.0 * pow2(r.1 as nat),
        s.exponent() > 0 ==> r.0 >= 0x80_0000 && r.1 == s.exponent() - 1,
        s.exponent() == 0 ==> r.1 == 0,
{
    let e: u32 = (s.bits / 0x80_0000) % 256;
    let f: u32 = s.bits % 0x80_0000;
    if e == 0 {
        proof {
            lemma_shift_zero(f as nat);
        }
        (f as u64, 0)
    } else {
        (f as u64 + 0x80_0000, e - 1)
    }
}

/// The number `m * 2^e` in units of 2^-149.
fn assemble(m: u64, e: u32) -> (r: Single)
    requires
        m <= 0x100_0000,
        e <= 252,
    ensures
        r.magnitude() == m * pow2(e as nat),
        !r.negative(),
        r.exponent() < 255,
{
    let mut sig: u64 = m;
    let mut sh: u32 = e;
    if sig == 0x100_0000 {
        proof {
            power2::lemma_pow2_unfold((e + 1) as nat);
            assert(0x80_0000 * (2 * pow2(e as nat)) == 0x100_0000 * pow2(e as nat)) by (nonlinear_arith);
        }
        sig = 0x80_0000;
        sh = e + 1;
    }
    while sig < 0x80_0000 && sh > 0
        invariant
            sig < 0x100_0000,
            sh <= 253,
            sig * pow2(sh as nat) == m * pow2(e as nat),
        decreases sh,
    {
        proof {
            power2::lemma_pow2_unfold(sh as nat);
            let p = pow2((sh - 1) as nat);
            assert((2 * sig) * p == sig * (2 * p)) by (nonlinear_arith);
        }
        sig = sig * 2;
        sh = sh - 1;
    }
    let bits: u32 = if sig < 0x80_0000 {
        sig as u32
    } else {
        (sh + 1) * 0x80_0000 + (sig as u32 - 0x80_0000)
    };
    proof {
        let r = Single { bits };
        if sig < 0x80_0000 {
            lemma_shift_zero(sig as nat);
            assert(r.exponent() == 0);
            assert(r.fraction() == sig);
        } else {
            assert(r.exponent() == sh + 1);
            assert(r.fraction() == sig - 0x80_0000);
        }
    }
    Single { bits }
}

impl Single {
    /// An integer as a single-precision number.
    pub fn from_u32(n: u32) -> (r: Single)
        ensures
            r == of_u32(n),
            r.magnitude() == rounded(n as nat) * one(),
            !r.negative(),
    {
        let (m, k) = round_parts(n as u64);
        proof {
            lemma_shift_add(m as nat, k as nat, 149);
        }
        let r = assemble(m, k + 149);
        proof {
            assert(is_conversion(n, r));
            magnitude_pins_bits(r, of_u32(n));
        }
        r
    }

    /// Whether the pattern denotes no number.
    pub fn nan(self) -> (r: bool)
        ensures
            r == self.is_nan(),
    {
        (self.bits / 0x80_0000) % 256 == 255 && self.bits % 0x80_0000 != 0
    }

    /// `self` clamped into `[lo, hi]`.
    pub fn clamp(self, lo: Single, hi: Single) -> (r: Single)
        requires
            counts(lo),
            counts(hi),
        ensures
            r == clamped(self, lo, hi),
    {
        if self.nan() {
            return self;
        }
        if self.bits >= 0x8000_0000 {
            if self.bits == 0x8000_0000 && lo.bits == 0 {
                return self;
            }
            proof {
                let abs = Single { bits: (self.bits - 0x8000_0000) as u32 };
                let zero = Single { bits: 0 };
                assert(abs.exponent() == self.exponent());
                assert(abs.fraction() == self.fraction());
                assert(abs.magnitude() == self.magnitude());
                assert(zero.magnitude() == 0);
                if abs.bits > 0 {
                    bits_order_magnitudes(zero, abs);
                }
                if lo.bits > 0 {
                    bits_order_magnitudes(zero, lo);
                }
            }
            return lo;
        }
        if self.bits < lo.bits {
            proof {
                bits_order_magnitudes(self, lo);
            }
            return lo;
        }
        proof {
            if lo.bits < self.bits {
                bits_order_magnitudes(lo, self);
            }
        }
        if self.bits > hi.bits {
            proof {
                bits_order_magnitudes(hi, self);
            }
            return hi;
        }
        proof {
            if self.bits < hi.bits {
                bits_order_magnitudes(self, hi);
            }
        }
        self
    }

    /// Clamps a requested render scale into `[0.25, 1.0]`.
    pub fn to_scale(self) -> (r: Single)
        ensures
            r == clamped(self, (Single { bits: QUARTER_BITS }), (Single { bits: ONE_BITS })),
            r == requested_scale(self),
            is_scale(r),
    {
        proof {
            constant_magnitudes();
            bits_order_magnitudes(Single { bits: QUARTER_BITS }, Single { bits: ONE_BITS });
            power2::lemma_pow2_pos(147);
        }
        self.clamp(Single { bits: QUARTER_BITS }, Single { bits: ONE_BITS })
    }

    /// Clamps a requested sharpness into `[0.0, 1.0]`.
    pub fn to_unit(self) -> (r: Single)
        ensures
            r == clamped(self, (Single { bits: ZERO_BITS }), (Single { bits: ONE_BITS })),
            r == requested_unit(self),
            is_unit(r),
    {
        proof {
            constant_magnitudes();
        }
        self.clamp(Single { bits: ZERO_BITS }, Single { bits: ONE_BITS })
    }
}

/// The quantum of `n` is small against `n`.
proof fn lemma_quantum_bound(n: nat)
    ensures
        quantum(n) >= 1,
        n >= 0x80_0000 ==> quantum(n) * 0x80_0000 <= n,
    decreases n,
{
    if n >= 0x100_0000 {
        lemma_quantum_bound(n / 2);
    }
}

/// Rounding moves a number by less than its quantum.
proof fn lemma_rounded_near(n: nat)
    ensures
        n < rounded(n) + quantum(n),
        rounded(n) < n + quantum(n),
{
    lemma_quantum_bound(n);
    let u = quantum(n);
    let q = n / u;
    let r = n % u;
    div_mod::lemma_fundamental_div_mod(n as int, u as int);
    assert(n == q * u + r) by (nonlinear_arith)
        requires
            n == u * q + r,
    ;
    lemma_rounded_is(n, u, q, r);
    assert((q + 1) * u == q * u + u) by (nonlinear_arith);
}

/// A render scale lies between the patterns of 0.25 and 1.0.
proof fn lemma_scale_bits(s: Single)
    requires
        is_scale(s),
        !s.is_nan(),
    ensures
        QUARTER_BITS <= s.bits <= ONE_BITS,
        125 <= s.exponent() <= 127,
        s.exponent() == 127 ==> s.fraction() == 0,
{
    constant_magnitudes();
    let lo = Single { bits: QUARTER_BITS };
    let hi = Single { bits: ONE_BITS };
    if s.bits < lo.bits {
        bits_order_magnitudes(s, lo);
    }
    if s.bits > hi.bits {
        bits_order_magnitudes(hi, s);
    }
}

/// `m * 2^j`.
fn shifted(m: u64, j: u32) -> (r: u64)
    requires
        m <= 0x100_0000,
        j <= 32,
    ensures
        r == m * pow2(j as nat),
        r <= 0x100_0000_0000_0000,
{
    let mut x: u64 = m;
    let mut i: u32 = 0;
    proof {
        lemma_shift_zero(m as nat);
    }
    while i < j
        invariant
            i <= j <= 32,
            m <= 0x100_0000,
            x == m * pow2(i as nat),
            x <= 0x100_0000_0000_0000,
        decreases j - i,
    {
        proof {
            let p = pow2(i as nat);
            power2::lemma_pow2_unfold((i + 1) as nat);
            assert(m * (2 * p) == 2 * (m * p)) by (nonlinear_arith);
            power2::lemma2_to64();
            if i < 31 {
                power2::lemma_pow2_strictly_increases(i as nat, 31);
            }
            assert(m * p <= 0x100_0000 * 0x8000_0000) by (nonlinear_arith)
                requires
                    m <= 0x100_0000,
                    p <= 0x8000_0000,
            ;
        }
        x = x * 2;
        i = i + 1;
    }
    x
}

/// `m * 2^e` in units of 2^base.
fn widen(m: u64, e: u32, base: u32) -> (r: u64)
    requires
        m <= 0x100_0000,
        base <= e <= base + 32,
    ensures
        r * pow2(base as nat) == m * pow2(e as nat),
        r == m * pow2((e - base) as nat),
        r <= 0x100_0000_0000_0000,
{
    proof {
        lemma_shift_add(m as nat, (e - base) as nat, base as nat);
    }
    shifted(m, e - base)
}

/// `r` is a twentieth more than the scale `s`, at most 1.0. A pattern that is
/// no number goes to the upper end.
pub open spec fn is_scale_up(s: Single, r: Single) -> bool {
    &&& is_scale(r)
    &&& !r.is_nan()
    &&& s.is_nan() ==> r.bits == ONE_BITS
    &&& !s.is_nan() ==> r.magnitude() == smaller(
        rounded(s.magnitude() + (Single { bits: TWENTIETH_BITS }).magnitude()),
        one(),
    )
}

/// `r` is a twentieth less than the scale `s`, at least 0.25. A pattern that
/// is no number goes to the lower end.
pub open spec fn is_scale_down(s: Single, r: Single) -> bool {
    &&& is_scale(r)
    &&& !r.is_nan()
    &&& s.is_nan() ==> r.bits == QUARTER_BITS
    &&& !s.is_nan() ==> r.magnitude() == larger(
        rounded(minus(s.magnitude(), (Single { bits: TWENTIETH_BITS }).magnitude())),
        pow2(147),
    )
}

/// `r` is a tenth more than the sharpness `s`, at most 1.0. A pattern that is
/// no number goes to the upper end.
pub open spec fn is_sharper(s: Single, r: Single) -> bool {
    &&& is_unit(r)
    &&& counts(r)
    &&& s.is_nan() ==> r.bits == ONE_BITS
    &&& !s.is_nan() ==> r.magnitude() == smaller(
        rounded(s.magnitude() + (Single { bits: TENTH_BITS }).magnitude()),
        one(),
    )
}

/// `r` is a tenth less than the sharpness `s`, at least zero. A pattern that
/// is no number goes to the lower end.
pub open spec fn is_softer(s: Single, r: Single) -> bool {
    &&& is_unit(r)
    &&& counts(r)
    &&& s.is_nan() ==> r.bits == ZERO_BITS
    &&& !s.is_nan() ==> r.magnitude() == rounded(
        minus(s.magnitude(), (Single { bits: TENTH_BITS }).magnitude()),
    )
}

/// One step up in render scale: a twentieth more, at most 1.0.
pub fn scale_up(s: Single) -> (r: Single)
    requires
        is_scale(s),
    ensures
        is_scale_up(s, r),
{
    proof {
        constant_magnitudes();
        bits_order_magnitudes(Single { bits: QUARTER_BITS }, Single { bits: ONE_BITS });
    }
    if s.nan() {
        return Single { bits: ONE_BITS };
    }
    proof {
        lemma_scale_bits(s);
    }
    let (m, e) = parts(s);
    let x = widen(m, e, 121);
    proof {
        power2::lemma2_to64();
        lemma_widened_bounds(m as nat, (e - 121) as nat, s);
    }
    let sum: u64 = x + 13421773;
    let (q, k) = round_parts(sum);
    let up = assemble(q, k + 121);
    proof {
        let t = 13421773nat * pow2(121);
        assert(sum * pow2(121) == s.magnitude() + t) by (nonlinear_arith)
            requires
                sum == x + 13421773,
                x * pow2(121) == s.magnitude(),
                t == 13421773nat * pow2(121),
        ;
        rounding_scales(sum as nat, 121);
        lemma_shift_add(q as nat, k as nat, 121);
        assert(up.magnitude() == rounded(s.magnitude() + t));
        lemma_rounded_near(sum as nat);
        lemma_quantum_bound(sum as nat);
        let w = rounded(sum as nat);
        assert(w >= 0x400_0000);
        power2::lemma_pow2_adds(26, 121);
        assert(w * pow2(121) >= 0x400_0000 * pow2(121)) by (nonlinear_arith)
            requires
                w >= 0x400_0000,
        ;
    }
    if up.bits > ONE_BITS {
        proof {
            bits_order_magnitudes(Single { bits: ONE_BITS }, up);
        }
        Single { bits: ONE_BITS }
    } else {
        proof {
            if up.bits < ONE_BITS {
                bits_order_magnitudes(up, Single { bits: ONE_BITS });
            }
        }
        up
    }
}

/// The widened significand of a render scale, in units of 2^121.
proof fn lemma_widened_bounds(m: nat, j: nat, s: Single)
    requires
        is_scale(s),
        !s.is_nan(),
        0x80_0000 <= m < 0x100_0000,
        j == s.exponent() - 1 - 121,
        s.magnitude() == m * pow2((j + 121) as nat),
    ensures
        0x400_0000 <= m * pow2(j) <= 0x1000_0000,
{
    lemma_scale_bits(s);
    power2::lemma2_to64();
    power2::lemma_pow2_pos(126);
    assert(pow2(3) == 8 && pow2(4) == 16 && pow2(5) == 32);
    if j == 3 {
        assert(m * pow2(j) == m * 8);
    } else if j == 4 {
        assert(m * pow2(j) == m * 16);
    } else {
        assert(j == 5);
        assert(s.magnitude() == (s.fraction() + 0x80_0000) * pow2(126));
        assert(m == 0x80_0000) by (nonlinear_arith)
            requires
                m * pow2(126) == 0x80_0000nat * pow2(126),
                pow2(126) > 0,
        {
        }
    }
}

/// One step down in render scale: a twentieth less, at least 0.25.
pub fn scale_down(s: Single) -> (r: Single)
    requires
        is_scale(s),
    ensures
        is_scale_down(s, r),
{
    proof {
        constant_magnitudes();
        bits_order_magnitudes(Single { bits: QUARTER_BITS }, Single { bits: ONE_BITS });
    }
    if s.nan() {
        return Single { bits: QUARTER_BITS };
    }
    proof {
        lemma_scale_bits(s);
    }
    let (m, e) = parts(s);
    let x = widen(m, e, 121);
    proof {
        power2::lemma2_to64();
        lemma_widened_bounds(m as nat, (e - 121) as nat, s);
    }
    let diff: u64 = x - 13421773;
    let (q, k) = round_parts(diff);
    let down = assemble(q, k + 121);
    proof {
        let t = 13421773nat * pow2(121);
        assert(diff * pow2(121) + t == s.magnitude()) by (nonlinear_arith)
            requires
                diff == x - 13421773,
                x * pow2(121) == s.magnitude(),
                t == 13421773nat * pow2(121),
        ;
        rounding_scales(diff as nat, 121);
        lemma_shift_add(q as nat, k as nat, 121);
        assert(down.magnitude() == rounded(minus(s.magnitude(), t)));
        lemma_rounded_near(diff as nat);
        lemma_quantum_bound(diff as nat);
        let w = rounded(diff as nat);
        assert(w <= 0x1000_0000);
        power2::lemma_pow2_adds(28, 121);
        assert(w * pow2(121) <= 0x1000_0000 * pow2(121)) by (nonlinear_arith)
            requires
                w <= 0x1000_0000,
        ;
    }
    if down.bits < QUARTER_BITS {
        proof {
            bits_order_magnitudes(down, Single { bits: QUARTER_BITS });
        }
        Single { bits: QUARTER_BITS }
    } else {
        proof {
            if QUARTER_BITS < down.bits {
                bits_order_magnitudes(Single { bits: QUARTER_BITS }, down);
            }
        }
        down
    }
}

/// `m * 2^e / 2^149` for a render scale's product.
fn whole_part(m: u64, e: u32) -> (r: u64)
    requires
        m <= 0x100_0000,
        e <= 180,
    ensures
        r == (m as nat * pow2(e as nat)) / one(),
{
    if e >= 149 {
        let r = shifted(m, e - 149);
        proof {
            lemma_shift_add(m as nat, (e - 149) as nat, 149);
            power2::lemma_pow2_pos(149);
            div_mod::lemma_div_multiples_vanish((m * pow2((e - 149) as nat)) as int, one() as int);
            assert(one() * (m * pow2((e - 149) as nat)) == (m * pow2((e - 149) as nat)) * one())
                by (nonlinear_arith);
        }
        return r;
    }
    let mut x: u64 = m;
    let mut i: u32 = e;
    proof {
        power2::lemma_pow2_pos(149);
    }
    while i < 149
        invariant
            e <= i <= 149,
            x <= 0x100_0000,
            (x as nat * pow2(i as nat)) / one() == (m as nat * pow2(e as nat)) / one(),
            one() > 0,
        decreases 149 - i,
    {
        proof {
            let p = pow2(i as nat);
            power2::lemma_pow2_unfold((i + 1) as nat);
            lemma_halve_before_division(x as nat, i as nat);
        }
        x = x / 2;
        i = i + 1;
    }
    proof {
        assert(x * one() == one() * x) by (nonlinear_arith);
        div_mod::lemma_div_multiples_vanish(x as int, one() as int);
    }
    x
}

/// Dropping the lowest bit of the significand does not change the whole part.
proof fn lemma_halve_before_division(x: nat, i: nat)
    requires
        i < 149,
    ensures
        ((x / 2) * pow2(i + 1)) / one() == (x * pow2(i)) / one(),
{
    let j = (148 - i) as nat;
    power2::lemma_pow2_adds(i, 1);
    power2::lemma_pow2_adds(i, j + 1);
    power2::lemma_pow2_adds(i + 1, j);
    power2::lemma_pow2_adds(j, 1);
    power2::lemma2_to64();
    power2::lemma_pow2_pos(i);
    power2::lemma_pow2_pos(i + 1);
    power2::lemma_pow2_pos(j);
    power2::lemma_pow2_pos(j + 1);
    let a = pow2(i) as int;
    let b = pow2(j + 1) as int;
    assert(one() == a * b);
    div_mod::lemma_div_denominator(x as int * a, a, b);
    assert(x as int * a == a * x as int) by (nonlinear_arith);
    div_mod::lemma_div_multiples_vanish(x as int, a);
    let c = pow2(i + 1) as int;
    let d = pow2(j) as int;
    let h = (x / 2) as int;
    assert(one() == c * d);
    div_mod::lemma_div_denominator(h * c, c, d);
    assert(h * c == c * h) by (nonlinear_arith);
    div_mod::lemma_div_multiples_vanish(h, c);
    assert(b == 2 * d) by (nonlinear_arith)
        requires
            b == d * pow2(1),
            pow2(1) == 2,
    ;
    div_mod::lemma_div_denominator(x as int, 2, d);
}

/// A dimension scaled in single precision and truncated.
pub fn scaled_extent(dim: u32, scale: Single) -> (r: u32)
    requires
        is_scale(scale),
    ensures
        r == extent(dim, scale),
{
    if scale.nan() {
        return 0;
    }
    proof {
        lemma_scale_bits(scale);
        power2::lemma2_to64();
    }
    let (dm, dk) = round_parts(dim as u64);
    let (sm, se) = parts(scale);
    assert(dm * sm <= 0x100_0000 * 0x100_0000) by (nonlinear_arith)
        requires
            dm <= 0x100_0000,
            sm < 0x100_0000,
    ;
    let product: u64 = dm * sm;
    let (q, k) = round_parts(product);
    proof {
        lemma_shift_at_most(dk as nat, 9);
        lemma_shift_at_most(k as nat, 25);
        let t = (dk + se) as nat;
        lemma_shift_add(product as nat, dk as nat, se as nat);
        let (a, b, c, d) = (dm as nat, pow2(dk as nat), sm as nat, pow2(se as nat));
        assert((a * b) * (c * d) == ((a * c) * b) * d) by (nonlinear_arith);
        assert(rounded(dim as nat) * scale.magnitude() == product * pow2(t));
        rounding_scales(product as nat, t);
        lemma_shift_add(q as nat, k as nat, t);
    }
    let w = whole_part(q, k + dk + se);
    if w > u32::MAX as u64 {
        u32::MAX
    } else {
        w as u32
    }
}

/// 2^k within 2^bound means `k` within `bound`.
proof fn lemma_shift_at_most(k: nat, bound: nat)
    requires
        k > 0 ==> pow2(k) <= pow2(bound),
    ensures
        k <= bound,
{
    if k > bound {
        power2::lemma_pow2_strictly_increases(bound, k);
    }
}

/// A whole percentage, clamped to 25 through 100, as a single-precision
/// quotient by one hundred.
pub open spec fn percent_magnitude(pct: u8) -> nat {
    rounded_ratio(clamped_percent(pct) * one(), 100)
}

/// `pct` clamped to 25 through 100.
pub open spec fn clamped_percent(pct: u8) -> nat {
    if pct < 25 {
        25
    } else if pct > 100 {
        100
    } else {
        pct as nat
    }
}

/// The render scale for a whole percentage.
pub fn percent(pct: u8) -> (r: Single)
    ensures
        r.magnitude() == percent_magnitude(pct),
        !r.is_nan(),
        is_scale(r),
{
    let p: u64 = if pct < 25 {
        25
    } else if pct > 100 {
        100
    } else {
        pct as u64
    };
    let j: u32 = if p < 50 {
        124
    } else if p < 100 {
        125
    } else {
        126
    };
    let num: u64 = shifted(p, 149 - j);
    let ghost unit = pow2(147);
    let ghost u = pow2(j as nat);
    let ghost n = p as nat * one();
    proof {
        power2::lemma2_to64();
        power2::lemma_pow2_pos(147);
        power2::lemma_pow2_unfold(148);
        power2::lemma_pow2_unfold(149);
        power2::lemma_pow2_unfold(150);
        assert(n == 4 * (p * unit)) by (nonlinear_arith)
            requires
                n == p * one(),
                one() == 4 * unit,
        ;
        if p < 50 {
            assert(25 * unit <= p * unit < 50 * unit) by (nonlinear_arith)
                requires
                    25 <= p < 50,
                    unit > 0,
            ;
        } else if p < 100 {
            assert(50 * unit <= p * unit < 100 * unit) by (nonlinear_arith)
                requires
                    50 <= p < 100,
                    unit > 0,
            ;
        } else {
            assert(p * unit == 100 * unit) by (nonlinear_arith)
                requires
                    p == 100,
            ;
        }
        assert(23 + 124 == 147 && 23 + 125 == 148 && 23 + 126 == 149);
        assert(24 + 124 == 148 && 24 + 125 == 149 && 24 + 126 == 150);
        lemma_quantum_is(n / 100, j as nat);
        lemma_shift_add(p as nat, (149 - j) as nat, j as nat);
        power2::lemma_pow2_pos(j as nat);
    }
    proof {
        let f = pow2((149 - j) as nat);
        assert(f == if p < 50 {
            0x200_0000nat
        } else if p < 100 {
            0x100_0000nat
        } else {
            0x80_0000nat
        });
        assert(num == if p < 50 {
            p * 0x200_0000
        } else if p < 100 {
            p * 0x100_0000
        } else {
            p * 0x80_0000
        });
    }
    let q: u64 = num / 100;
    let r: u64 = num % 100;
    proof {
        assert(n == q * (100 * u) + r * u) by (nonlinear_arith)
            requires
                n == num * u,
                num == 100 * q + r,
        ;
        assert(r * u < 100 * u) by (nonlinear_arith)
            requires
                r < 100,
                u > 0,
        ;
        lemma_rounded_ratio_is(n, 100, u, q as nat, (r * u) as nat);
        assert((2 * (r * u) > 100 * u) == (2 * r > 100)) by (nonlinear_arith)
            requires
                u > 0,
        ;
        assert((2 * (r * u) == 100 * u) == (2 * r == 100)) by (nonlinear_arith)
            requires
                u > 0,
        ;
    }
    let sig: u64 = if 2 * r > 100 || (2 * r == 100 && q % 2 == 1) {
        q + 1
    } else {
        q
    };
    let s = assemble(sig, j);
    proof {
        assert(0x80_0000 <= sig <= 0x100_0000);
        assert(p == 100 ==> sig == 0x80_0000);
        let m = sig as nat * u;
        assert(0x80_0000 * u <= m <= 0x100_0000 * u) by (nonlinear_arith)
            requires
                0x80_0000 <= sig <= 0x100_0000,
                m == sig * u,
        ;
        power2::lemma_pow2_adds(23, j as nat);
        power2::lemma_pow2_adds(24, j as nat);
    }
    s
}

/// A unit-range number has a small exponent field.
proof fn lemma_unit_exponent(s: Single)
    requires
        is_unit(s),
        !s.is_nan(),
    ensures
        s.exponent() <= 127,
        s.negative() ==> s.exponent() == 0,
{
    let one_bits = Single { bits: ONE_BITS };
    constant_magnitudes();
    if !s.negative() {
        if s.bits > ONE_BITS {
            bits_order_magnitudes(one_bits, s);
        }
    } else if s.exponent() > 0 {
        let p = pow2((s.exponent() - 1) as nat);
        power2::lemma_pow2_pos((s.exponent() - 1) as nat);
        assert((s.fraction() + 0x80_0000) * p > 0) by (nonlinear_arith)
            requires
                p > 0,
        ;
    }
}

/// One step up in sharpness: a tenth more, at most 1.0.
pub fn sharpen_up(s: Single) -> (r: Single)
    requires
        is_unit(s),
    ensures
        is_sharper(s, r),
{
    proof {
        constant_magnitudes();
    }
    if s.nan() {
        return Single { bits: ONE_BITS };
    }
    proof {
        lemma_unit_exponent(s);
        power2::lemma2_to64();
    }
    let (m, e) = parts(s);
    let ghost t = 13421773nat * pow2(122);
    if e < 97 {
        proof {
            lemma_absorbs(m as nat, e as nat, 13421773, 122);
            bits_order_magnitudes(Single { bits: TENTH_BITS }, Single { bits: ONE_BITS });
        }
        return Single { bits: TENTH_BITS };
    }
    let x = widen(m, e, 97);
    let sum: u64 = x + 13421773 * 0x200_0000;
    let (q, k) = round_parts(sum);
    let up = assemble(q, k + 97);
    proof {
        lemma_shift_add(13421773, 25, 97);
        assert(sum * pow2(97) == s.magnitude() + t) by (nonlinear_arith)
            requires
                sum == x + 13421773 * 0x200_0000,
                x * pow2(97) == s.magnitude(),
                t == (13421773nat * 0x200_0000) * pow2(97),
        ;
        rounding_scales(sum as nat, 97);
        lemma_shift_add(q as nat, k as nat, 97);
    }
    if up.bits > ONE_BITS {
        proof {
            bits_order_magnitudes(Single { bits: ONE_BITS }, up);
        }
        Single { bits: ONE_BITS }
    } else {
        proof {
            if up.bits < ONE_BITS {
                bits_order_magnitudes(up, Single { bits: ONE_BITS });
            }
        }
        up
    }
}

/// A number below half a quantum of another vanishes when added to it.
proof fn lemma_absorbs(m: nat, e: nat, big: nat, shift: nat)
    requires
        m < 0x100_0000,
        e + 25 < shift,
        0x80_0000 <= big < 0x100_0000,
    ensures
        rounded(m * pow2(e) + big * pow2(shift)) == big * pow2(shift),
{
    let x = m * pow2(e);
    let u = pow2(shift);
    let low = (shift - 25) as nat;
    power2::lemma2_to64();
    lemma_shift_less(m, e, 0x100_0000, low);
    power2::lemma_pow2_adds(24, low);
    power2::lemma_pow2_unfold(shift);
    assert(2 * x < u);
    power2::lemma_pow2_pos(shift);
    let n = x + big * u;
    power2::lemma_pow2_adds(23, shift);
    power2::lemma_pow2_adds(24, shift);
    assert(0x80_0000 * u <= big * u && big * u + u <= 0x100_0000 * u) by (nonlinear_arith)
        requires
            0x80_0000 <= big,
            big + 1 <= 0x100_0000,
    ;
    lemma_quantum_is(n, shift);
    lemma_rounded_is(n, u, big, x);
}

/// One step down in sharpness: a tenth less, at least zero.
pub fn sharpen_down(s: Single) -> (r: Single)
    requires
        is_unit(s),
    ensures
        is_softer(s, r),
{
    proof {
        constant_magnitudes();
        lemma_rounded_small(0);
    }
    if s.nan() {
        return Single { bits: ZERO_BITS };
    }
    if s.bits <= TENTH_BITS || s.bits >= 0x8000_0000 {
        proof {
            if s.bits < TENTH_BITS {
                bits_order_magnitudes(s, Single { bits: TENTH_BITS });
            }
        }
        return Single { bits: ZERO_BITS };
    }
    proof {
        bits_order_magnitudes(Single { bits: TENTH_BITS }, s);
        lemma_unit_exponent(s);
        assert(s.exponent() >= 123);
    }
    let (m, e) = parts(s);
    let x = widen(m, e, 122);
    let ghost t = 13421773nat * pow2(122);
    proof {
        power2::lemma2_to64();
        power2::lemma_pow2_pos(122);
        assert(x > 13421773) by (nonlinear_arith)
            requires
                x * pow2(122) > 13421773nat * pow2(122),
        ;
        let j = (e - 122) as nat;
        assert(j <= 4);
        if j < 4 {
            power2::lemma_pow2_strictly_increases(j, 4);
        }
        assert(x <= 0x1000_0000) by (nonlinear_arith)
            requires
                x == m * pow2(j),
                m < 0x100_0000,
                pow2(j) <= 16,
        ;
    }
    let diff: u64 = x - 13421773;
    let (q, k) = round_parts(diff);
    proof {
        assert(diff * pow2(122) + t == s.magnitude()) by (nonlinear_arith)
            requires
                diff == x - 13421773,
                x * pow2(122) == s.magnitude(),
                t == 13421773nat * pow2(122),
        ;
        rounding_scales(diff as nat, 122);
        lemma_shift_add(q as nat, k as nat, 122);
        lemma_rounded_near(diff as nat);
        lemma_quantum_bound(diff as nat);
        let w = rounded(diff as nat);
        power2::lemma_pow2_adds(27, 122);
        assert(x <= 0x800_0000) by (nonlinear_arith)
            requires
                x * pow2(122) <= 0x800_0000nat * pow2(122),
                pow2(122) > 0,
        {
        }
        assert(w <= 0x800_0000);
        assert(w * pow2(122) <= 0x800_0000 * pow2(122)) by (nonlinear_arith)
            requires
                w <= 0x800_0000,
        ;
    }
    assemble(q, k + 122)
}

/// A step in scale or sharpness has one result.
pub proof fn steps_have_one_result(s: Single, a: Single, b: Single)
    ensures
        is_scale_up(s, a) && is_scale_up(s, b) ==> a == b,
        is_scale_down(s, a) && is_scale_down(s, b) ==> a == b,
        is_sharper(s, a) && is_sharper(s, b) ==> a == b,
        is_softer(s, a) && is_softer(s, b) ==> a == b,
{
    if !a.negative() && !b.negative() && a.magnitude() == b.magnitude() {
        magnitude_pins_bits(a, b);
    }
}

/// A number has at most 24 bits above its quantum, and exactly 24 when the
/// quantum is more than one.
proof fn lemma_quantum_range(n: nat)
    ensures
        quantum(n) >= 1,
        n < 0x100_0000 * quantum(n),
        quantum(n) > 1 ==> n >= 0x80_0000 * quantum(n),
    decreases n,
{
    if n >= 0x100_0000 {
        lemma_quantum_range(n / 2);
    }
}

proof fn lemma_quantum_grows(a: nat, b: nat)
    requires
        a <= b,
    ensures
        quantum(a) == quantum(b) || 2 * quantum(a) <= quantum(b),
    decreases b,
{
    if b >= 0x100_0000 {
        if a >= 0x100_0000 {
            lemma_quantum_grows(a / 2, b / 2);
        } else {
            lemma_quantum_range(b / 2);
        }
    }
}

/// Rounding keeps the order of numbers.
pub proof fn rounding_is_monotone(a: nat, b: nat)
    requires
        a <= b,
    ensures
        rounded(a) <= rounded(b),
{
    lemma_quantum_range(a);
    lemma_quantum_range(b);
    lemma_quantum_grows(a, b);
    let (u, v) = (quantum(a), quantum(b));
    let (p, q) = (a / u, b / v);
    let (r, t) = (a % u, b % v);
    div_mod::lemma_fundamental_div_mod(a as int, u as int);
    div_mod::lemma_fundamental_div_mod(b as int, v as int);
    assert(a == p * u + r) by (nonlinear_arith)
        requires
            a == u * p + r,
    ;
    assert(b == q * v + t) by (nonlinear_arith)
        requires
            b == v * q + t,
    ;
    lemma_rounded_is(a, u, p, r);
    lemma_rounded_is(b, v, q, t);
    assert((p + 1) * u == p * u + u) by (nonlinear_arith);
    assert((q + 1) * v == q * v + v) by (nonlinear_arith);
    if u == v {
        assert(p <= q) by (nonlinear_arith)
            requires
                p * u + r <= q * u + t,
                t < u,
                u > 0,
                r >= 0,
        ;
        if p < q {
            assert((p + 1) * u <= q * u) by (nonlinear_arith)
                requires
                    p + 1 <= q,
            ;
        }
    } else {
        assert(p < 0x100_0000) by (nonlinear_arith)
            requires
                p * u + r < 0x100_0000 * u,
                r >= 0,
                u > 0,
        ;
        assert((p + 1) * u <= 0x100_0000 * u) by (nonlinear_arith)
            requires
                p + 1 <= 0x100_0000,
        ;
        assert(q >= 0x80_0000) by (nonlinear_arith)
            requires
                q * v + t >= 0x80_0000 * v,
                t < v,
                v > 0,
        ;
        assert(q * v >= 0x80_0000 * v) by (nonlinear_arith)
            requires
                q >= 0x80_0000,
        ;
    }
}

/// Rounding a rounded number changes nothing.
pub proof fn rounding_twice_is_rounding(n: nat)
    ensures
        rounded(rounded(n)) == rounded(n),
{
    lemma_quantum_range(n);
    let j = lemma_quantum_pow2(n);
    let u = quantum(n);
    let q = n / u;
    let r = n % u;
    div_mod::lemma_fundamental_div_mod(n as int, u as int);
    assert(n == q * u + r) by (nonlinear_arith)
        requires
            n == u * q + r,
    ;
    assert(q < 0x100_0000) by (nonlinear_arith)
        requires
            q * u + r < 0x100_0000 * u,
            r >= 0,
            u > 0,
    ;
    lemma_rounded_is(n, u, q, r);
    rounding_keeps(q, j);
    rounding_keeps(q + 1, j);
}

/// A percentage is at most the whole.
pub proof fn percent_is_at_most_one(pct: u8)
    ensures
        percent_magnitude(pct) <= one(),
{
    let p = clamped_percent(pct);
    let n = p * one();
    let w = n / 100;
    power2::lemma_pow2_pos(149);
    assert(n <= 100 * one()) by (nonlinear_arith)
        requires
            n == p * one(),
            p <= 100,
    ;
    assert(w <= one());
    lemma_quantum_range(w);
    let j = lemma_quantum_pow2(w);
    let u = quantum(w);
    let d = 100 * u;
    if j > 149 {
        power2::lemma_pow2_strictly_increases(149, j);
    }
    let i = (149 - j) as nat;
    power2::lemma_pow2_adds(j, i);
    let x = pow2(i);
    assert(one() == u * x);
    let q = n / d;
    let r = n % d;
    div_mod::lemma_fundamental_div_mod(n as int, d as int);
    assert(n == d * q + r);
    assert(q <= x) by (nonlinear_arith)
        requires
            n == d * q + r,
            r >= 0,
            d == 100 * u,
            n <= 100 * (u * x),
            u > 0,
    ;
    if q == x {
        assert(r == 0) by (nonlinear_arith)
            requires
                n == d * q + r,
                r >= 0,
                d == 100 * u,
                n <= 100 * (u * x),
                q == x,
        ;
        assert(q * u == u * x) by (nonlinear_arith)
            requires
                q == x,
        ;
    } else {
        assert((q + 1) * u <= u * x && q * u <= u * x) by (nonlinear_arith)
            requires
                q + 1 <= x,
        ;
    }
}

/// A scaled dimension is at most the dimension, up to the rounding of the
/// dimension itself; below 2^24 there is none.
pub proof fn scaling_never_enlarges(dim: u32, magnitude: nat)
    requires
        magnitude <= one(),
    ensures
        scaled(dim, magnitude) <= rounded(dim as nat),
        dim < 0x100_0000 ==> scaled(dim, magnitude) <= dim,
{
    let d = rounded(dim as nat);
    power2::lemma_pow2_pos(149);
    assert(d * magnitude <= d * one()) by (nonlinear_arith)
        requires
            magnitude <= one(),
    ;
    rounding_is_monotone(d * magnitude, d * one());
    rounding_scales(d, 149);
    rounding_twice_is_rounding(dim as nat);
    div_mod::lemma_div_is_ordered(
        rounded(d * magnitude) as int,
        (d * one()) as int,
        one() as int,
    );
    div_mod::lemma_div_multiples_vanish(d as int, one() as int);
    assert((one() * d) as int == (d * one()) as int) by (nonlinear_arith);
    if dim < 0x100_0000 {
        lemma_rounded_small(dim as nat);
    }
}

/// A larger dimension never gives a smaller extent.
pub proof fn scaling_is_monotone(a: u32, b: u32, magnitude: nat)
    requires
        a <= b,
    ensures
        scaled(a, magnitude) <= scaled(b, magnitude),
{
    rounding_is_monotone(a as nat, b as nat);
    let (x, y) = (rounded(a as nat), rounded(b as nat));
    assert(x * magnitude <= y * magnitude) by (nonlinear_arith)
        requires
            x <= y,
    ;
    rounding_is_monotone(x * magnitude, y * magnitude);
    power2::lemma_pow2_pos(149);
    div_mod::lemma_div_is_ordered(
        rounded(x * magnitude) as int,
        rounded(y * magnitude) as int,
        one() as int,
    );
}

/// A step is coarser than the rounding of any number up to 2.0.
proof fn lemma_step_outweighs_rounding(n: nat)
    requires
        n < 2 * one(),
    ensures
        quantum(n) < 13421773 * pow2(121),
{
    lemma_quantum_range(n);
    power2::lemma2_to64();
    power2::lemma_pow2_adds(28, 121);
    let x = pow2(121);
    power2::lemma_pow2_pos(121);
    assert(one() == 0x1000_0000 * x);
}

/// A step in scale or sharpness moves the value, unless it is at the end of
/// its range.
pub proof fn steps_move(s: Single, r: Single)
    requires
        !s.is_nan(),
    ensures
        is_scale(s) && s.magnitude() < one() && is_scale_up(s, r) ==> r.magnitude()
            > s.magnitude(),
        is_scale(s) && s.magnitude() > pow2(147) && is_scale_down(s, r) ==> r.magnitude()
            < s.magnitude(),
        is_unit(s) && s.magnitude() < one() && is_sharper(s, r) ==> r.magnitude() > s.magnitude(),
        is_unit(s) && s.magnitude() > 0 && is_softer(s, r) ==> r.magnitude() < s.magnitude(),
{
    constant_magnitudes();
    power2::lemma2_to64();
    power2::lemma_pow2_adds(1, 121);
    power2::lemma_pow2_adds(28, 121);
    power2::lemma_pow2_pos(121);
    let m = s.magnitude();
    let a = (Single { bits: TWENTIETH_BITS }).magnitude();
    let b = (Single { bits: TENTH_BITS }).magnitude();
    assert(b == 2 * a && b < one());
    if m <= one() {
        lemma_rounded_small(0);
        lemma_step_outweighs_rounding(m + a);
        lemma_rounded_near(m + a);
        lemma_step_outweighs_rounding(m + b);
        lemma_rounded_near(m + b);
        lemma_step_outweighs_rounding(minus(m, a));
        lemma_rounded_near(minus(m, a));
        lemma_step_outweighs_rounding(minus(m, b));
        lemma_rounded_near(minus(m, b));
    }
}

/// Clamping changes nothing that is in range already.
pub proof fn clamping_keeps_what_is_in_range(s: Single)
    ensures
        is_unit(s) ==> clamped(s, (Single { bits: ZERO_BITS }), (Single { bits: ONE_BITS })) == s,
        is_scale(s) ==> clamped(s, (Single { bits: QUARTER_BITS }), (Single { bits: ONE_BITS }))
            == s,
{
    constant_magnitudes();
}

/// A common factor of both sides of a ratio does not matter.
proof fn lemma_ratio_cancels(n: nat, d: nat, c: nat)
    requires
        d > 0,
        c > 0,
    ensures
        rounded_ratio(n * c, d * c) == rounded_ratio(n, d),
{
    let a = n / d;
    let b = n % d;
    div_mod::lemma_fundamental_div_mod(n as int, d as int);
    assert(n * c == a * (d * c) + b * c && b * c < d * c && d * c > 0) by (nonlinear_arith)
        requires
            n == d * a + b,
            b < d,
            c > 0,
    ;
    div_mod::lemma_fundamental_div_mod_converse(
        (n * c) as int,
        (d * c) as int,
        a as int,
        (b * c) as int,
    );
    lemma_quantum_bound(a);
    let u = quantum(a);
    let w = d * u;
    assert(w > 0) by (nonlinear_arith)
        requires
            w == d * u,
            d > 0,
            u > 0,
    ;
    let q = n / w;
    let r = n % w;
    div_mod::lemma_fundamental_div_mod(n as int, w as int);
    assert(n == q * w + r) by (nonlinear_arith)
        requires
            n == w * q + r,
    ;
    lemma_rounded_ratio_is(n, d, u, q, r);
    assert((d * c) * u == w * c) by (nonlinear_arith)
        requires
            w == d * u,
    ;
    assert(n * c == q * (w * c) + r * c && r * c < w * c) by (nonlinear_arith)
        requires
            n == q * w + r,
            r < w,
            c > 0,
    ;
    lemma_rounded_ratio_is(n * c, d * c, u, q, r * c);
    assert((2 * (r * c) > w * c) == (2 * r > w)) by (nonlinear_arith)
        requires
            c > 0,
    ;
    assert((2 * (r * c) == w * c) == (2 * r == w)) by (nonlinear_arith)
        requires
            c > 0,
    ;
}

/// Rounding of a ratio with enough bits commutes with doubling.
proof fn lemma_ratio_doubles(n: nat, d: nat)
    requires
        d > 0,
        n >= 0x80_0000 * d,
    ensures
        rounded_ratio(2 * n, d) == 2 * rounded_ratio(n, d),
{
    let a = n / d;
    let b = n % d;
    div_mod::lemma_fundamental_div_mod(n as int, d as int);
    assert(a >= 0x80_0000) by (nonlinear_arith)
        requires
            n == d * a + b,
            b < d,
            n >= 0x80_0000 * d,
    ;
    let twice = (2 * n) / d;
    assert(twice == 2 * a || twice == 2 * a + 1) by {
        if 2 * b < d {
            assert(2 * n == (2 * a) * d + 2 * b) by (nonlinear_arith)
                requires
                    n == d * a + b,
            ;
            div_mod::lemma_fundamental_div_mod_converse(
                2 * n as int,
                d as int,
                2 * a as int,
                2 * b as int,
            );
        } else {
            assert(2 * n == (2 * a + 1) * d + (2 * b - d)) by (nonlinear_arith)
                requires
                    n == d * a + b,
            ;
            div_mod::lemma_fundamental_div_mod_converse(
                2 * n as int,
                d as int,
                (2 * a + 1) as int,
                2 * b - d,
            );
        }
    }
    assert(twice / 2 == a);
    lemma_quantum_bound(a);
    let u = quantum(a);
    assert(quantum(twice) == 2 * u);
    let w = d * u;
    assert(w > 0) by (nonlinear_arith)
        requires
            w == d * u,
            d > 0,
            u > 0,
    ;
    let q = n / w;
    let r = n % w;
    div_mod::lemma_fundamental_div_mod(n as int, w as int);
    assert(n == q * w + r) by (nonlinear_arith)
        requires
            n == w * q + r,
    ;
    lemma_rounded_ratio_is(n, d, u, q, r);
    assert(d * (2 * u) == 2 * w) by (nonlinear_arith)
        requires
            w == d * u,
    ;
    assert(2 * n == q * (2 * w) + 2 * r) by (nonlinear_arith)
        requires
            n == q * w + r,
    ;
    lemma_rounded_ratio_is(2 * n, d, 2 * u, q, 2 * r);
    assert((q + 1) * (2 * u) == 2 * ((q + 1) * u)) by (nonlinear_arith);
    assert(q * (2 * u) == 2 * (q * u)) by (nonlinear_arith);
}

/// Rounding of a ratio with enough bits commutes with a shift.
proof fn lemma_ratio_scales(n: nat, d: nat, k: nat)
    requires
        d > 0,
        n >= 0x80_0000 * d,
    ensures
        rounded_ratio(n * pow2(k), d) == rounded_ratio(n, d) * pow2(k),
    decreases k,
{
    if k == 0 {
        lemma_shift_zero(n);
        lemma_shift_zero(rounded_ratio(n, d));
    } else {
        let i = (k - 1) as nat;
        let p = pow2(i);
        let y = rounded_ratio(n, d);
        lemma_ratio_scales(n, d, i);
        power2::lemma_pow2_pos(i);
        assert(n * p >= n) by (nonlinear_arith)
            requires
                p >= 1,
        ;
        lemma_ratio_doubles(n * p, d);
        power2::lemma_pow2_unfold(k);
        assert(n * (2 * p) == 2 * (n * p)) by (nonlinear_arith);
        assert(y * (2 * p) == 2 * (y * p)) by (nonlinear_arith);
    }
}

/// A ratio of less than a half rounds to zero.
proof fn lemma_ratio_vanishes(n: nat, d: nat)
    requires
        2 * n < d,
    ensures
        rounded_ratio(n, d) == 0,
{
    div_mod::lemma_basic_div(n as int, d as int);
    assert(0 * (d * 1) + n == n);
    lemma_rounded_ratio_is(n, d, 1, 0, n);
}

/// A ratio within a number of 24 bits rounds to within it.
proof fn lemma_ratio_at_most(n: nat, d: nat, m: nat, i: nat)
    requires
        d > 0,
        m <= 0x100_0000,
        n <= (m * pow2(i)) * d,
    ensures
        rounded_ratio(n, d) <= m * pow2(i),
{
    let b = m * pow2(i);
    let a = n / d;
    div_mod::lemma_fundamental_div_mod(n as int, d as int);
    assert(a <= b) by (nonlinear_arith)
        requires
            n == d * a + n % d,
            n % d >= 0,
            n <= b * d,
            d > 0,
    ;
    lemma_quantum_range(a);
    let k = lemma_quantum_pow2(a);
    let u = quantum(a);
    let c: nat = if k <= i {
        m * pow2((i - k) as nat)
    } else {
        0x80_0000
    };
    assert(b == c * u) by {
        if k <= i {
            lemma_shift_add(m, (i - k) as nat, k);
        } else {
            let half = pow2((k - 1) as nat);
            power2::lemma_pow2_unfold(k);
            power2::lemma_pow2_pos((k - 1) as nat);
            if i < k - 1 {
                power2::lemma_pow2_strictly_increases(i, (k - 1) as nat);
            }
            assert(b <= 0x100_0000 * half) by (nonlinear_arith)
                requires
                    b == m * pow2(i),
                    m <= 0x100_0000,
                    pow2(i) <= half,
            ;
        }
    }
    let w = d * u;
    assert(w > 0) by (nonlinear_arith)
        requires
            w == d * u,
            d > 0,
            u > 0,
    ;
    let q = n / w;
    let r = n % w;
    div_mod::lemma_fundamental_div_mod(n as int, w as int);
    assert(n == q * w + r) by (nonlinear_arith)
        requires
            n == w * q + r,
    ;
    lemma_rounded_ratio_is(n, d, u, q, r);
    assert(n <= c * w) by (nonlinear_arith)
        requires
            n <= b * d,
            b == c * u,
            w == d * u,
    ;
    assert(q <= c && (r > 0 ==> q + 1 <= c)) by (nonlinear_arith)
        requires
            q * w + r <= c * w,
            w > 0,
            r >= 0,
    ;
    if r > 0 {
        assert((q + 1) * u <= c * u) by (nonlinear_arith)
            requires
                q + 1 <= c,
        ;
    }
    assert(q * u <= c * u) by (nonlinear_arith)
        requires
            q <= c,
    ;
}

/// A rounded ratio is a number of 24 bits.
proof fn lemma_ratio_form(n: nat, d: nat) -> (r: (nat, nat))
    requires
        d > 0,
    ensures
        rounded_ratio(n, d) == r.0 * pow2(r.1),
        r.0 <= 0x100_0000,
{
    let a = n / d;
    lemma_quantum_range(a);
    let k = lemma_quantum_pow2(a);
    let u = quantum(a);
    div_mod::lemma_div_denominator(n as int, d as int, u as int);
    let q = n / (d * u);
    div_mod::lemma_fundamental_div_mod(a as int, u as int);
    assert(q < 0x100_0000) by (nonlinear_arith)
        requires
            a == u * q + a % u,
            a % u >= 0,
            a < 0x100_0000 * u,
            u > 0,
    ;
    let r = n % (d * u);
    if 2 * r > d * u || (2 * r == d * u && q % 2 == 1) {
        (q + 1, k)
    } else {
        (q, k)
    }
}

/// `s` is the non-negative number of magnitude `n`.
pub open spec fn has_magnitude(n: nat, s: Single) -> bool {
    !s.negative() && s.magnitude() == n
}

/// The non-negative number of magnitude `n`.
pub open spec fn of_magnitude(n: nat) -> Single {
    choose|s: Single| #[trigger] has_magnitude(n, s)
}

/// The pattern of a number below 2^24 times a power of two.
proof fn lemma_pattern(m: nat, e: nat) -> (s: Single)
    requires
        m < 0x100_0000,
        e <= 253,
    ensures
        has_magnitude(m * pow2(e), s),
    decreases e,
{
    if m < 0x80_0000 && e > 0 {
        let p = pow2((e - 1) as nat);
        power2::lemma_pow2_unfold(e);
        assert((2 * m) * p == m * (2 * p)) by (nonlinear_arith);
        lemma_pattern(2 * m, (e - 1) as nat)
    } else if m < 0x80_0000 {
        lemma_shift_zero(m);
        let s = Single { bits: m as u32 };
        assert(s.exponent() == 0 && s.fraction() == m);
        s
    } else {
        let s = Single { bits: ((e + 1) * 0x80_0000 + (m - 0x80_0000)) as u32 };
        assert(s.exponent() == e + 1 && s.fraction() == m - 0x80_0000);
        s
    }
}

/// The product of two magnitudes in single precision.
pub open spec fn product(a: nat, b: nat) -> nat {
    rounded_ratio(a * b, one())
}

/// A time in milliseconds, of at most 2^13. A 32-bit count of nanoseconds
/// makes no longer one.
pub open spec fn is_time(s: Single) -> bool {
    !s.negative() && s.magnitude() <= pow2(162)
}

/// A count of nanoseconds in milliseconds: the count is rounded, then its
/// quotient by a million is.
pub open spec fn milliseconds(ns: u32) -> nat {
    rounded_ratio(rounded(ns as nat) * one(), 1_000_000)
}

/// `old * 0.95 + new * 0.05` in single precision: the products are rounded,
/// then their sum is.
pub open spec fn blend(old: nat, new: nat) -> nat {
    rounded(
        product(old, (Single { bits: NINETEEN_TWENTIETHS_BITS }).magnitude()) + product(
            new,
            (Single { bits: TWENTIETH_BITS }).magnitude(),
        ),
    )
}

/// A count of nanoseconds as single-precision milliseconds.
pub open spec fn of_nanoseconds(ns: u32) -> Single {
    of_magnitude(milliseconds(ns))
}

/// The smoothed time `old` once `new` is blended in.
pub open spec fn blended(old: Single, new: Single) -> Single {
    of_magnitude(blend(old.magnitude(), new.magnitude()))
}

/// An integer of at most 24 bits has a pattern, and converts to it.
pub proof fn small_integers_have_a_pattern(n: u32)
    requires
        n < 0x100_0000,
    ensures
        is_conversion(n, of_u32(n)),
        of_u32(n).magnitude() == n * one(),
{
    lemma_rounded_small(n as nat);
    let s = lemma_pattern(n as nat, 149);
    assert(is_conversion(n, s));
}

/// A rounded ratio that is a time has a pattern.
proof fn lemma_time_pattern(n: nat, d: nat)
    requires
        d > 0,
        rounded_ratio(n, d) <= pow2(162),
    ensures
        has_magnitude(rounded_ratio(n, d), of_magnitude(rounded_ratio(n, d))),
{
    let x = rounded_ratio(n, d);
    let (q, k) = lemma_ratio_form(n, d);
    let s = if q == 0 {
        lemma_shift_zero(0);
        assert(0 * pow2(k) == 0);
        lemma_pattern(0, 0)
    } else {
        assert(pow2(k) <= x) by (nonlinear_arith)
            requires
                x == q * pow2(k),
                q >= 1,
        ;
        lemma_shift_at_most(k, 162);
        if q == 0x100_0000 {
            power2::lemma_pow2_unfold(k + 1);
            assert(0x80_0000 * (2 * pow2(k)) == 0x100_0000 * pow2(k)) by (nonlinear_arith);
            lemma_pattern(0x80_0000, k + 1)
        } else {
            lemma_pattern(q, k)
        }
    };
    assert(has_magnitude(x, s));
}

/// The weighted shares of two times.
proof fn lemma_shares(old: nat, new: nat)
    requires
        old <= pow2(162),
        new <= pow2(162),
    ensures
        product(old, (Single { bits: NINETEEN_TWENTIETHS_BITS }).magnitude()) <= 15938355 * pow2(138),
        product(new, (Single { bits: TWENTIETH_BITS }).magnitude()) <= 13421773 * pow2(134),
        15938355 * pow2(138) + 13421773 * pow2(134) <= pow2(162),
{
    constant_magnitudes();
    let (a, b, c) = (pow2(125), pow2(121), pow2(162));
    power2::lemma_pow2_adds(162, 125);
    power2::lemma_pow2_adds(138, 149);
    power2::lemma_pow2_adds(162, 121);
    power2::lemma_pow2_adds(134, 149);
    power2::lemma_pow2_adds(4, 134);
    power2::lemma_pow2_adds(28, 134);
    power2::lemma2_to64();
    power2::lemma_pow2_pos(149);
    assert(old * (15938355 * a) <= (15938355 * pow2(138)) * one()) by (nonlinear_arith)
        requires
            old <= c,
            c * a == pow2(138) * one(),
    ;
    assert(new * (13421773 * b) <= (13421773 * pow2(134)) * one()) by (nonlinear_arith)
        requires
            new <= c,
            c * b == pow2(134) * one(),
    ;
    lemma_ratio_at_most(old * (15938355 * a), one(), 15938355, 138);
    lemma_ratio_at_most(new * (13421773 * b), one(), 13421773, 134);
}

/// Reading a count of nanoseconds and blending times in both give times, and
/// the numbers they give are the rounded ones.
pub proof fn times_stay_times(ns: u32, old: Single, new: Single)
    requires
        is_time(old),
        is_time(new),
    ensures
        is_time(of_nanoseconds(ns)),
        of_nanoseconds(ns).magnitude() == milliseconds(ns),
        is_time(blended(old, new)),
        blended(old, new).magnitude() == blend(old.magnitude(), new.magnitude()),
{
    power2::lemma2_to64();
    let count = rounded(ns as nat);
    lemma_ratio_at_most(ns as nat, 1, 0x100_0000, 8);
    power2::lemma_pow2_adds(32, 149);
    power2::lemma_pow2_adds(162, 19);
    power2::lemma_pow2_pos(162);
    assert(count * one() <= (1 * pow2(162)) * 1_000_000) by (nonlinear_arith)
        requires
            count <= 0x1_0000_0000,
            0x1_0000_0000 * one() == pow2(162) * 0x8_0000,
            pow2(162) > 0,
    ;
    lemma_ratio_at_most(count * one(), 1_000_000, 1, 162);
    lemma_time_pattern(count * one(), 1_000_000);
    lemma_shares(old.magnitude(), new.magnitude());
    let sum = product(
        old.magnitude(),
        (Single { bits: NINETEEN_TWENTIETHS_BITS }).magnitude(),
    ) + product(new.magnitude(), (Single { bits: TWENTIETH_BITS }).magnitude());
    lemma_ratio_at_most(sum, 1, 1, 162);
    lemma_time_pattern(sum, 1);
}

/// A time has a small exponent field.
proof fn lemma_time_exponent(s: Single)
    requires
        is_time(s),
    ensures
        s.exponent() <= 140,
{
    constant_magnitudes();
    if s.bits > LONGEST_BITS {
        bits_order_magnitudes(Single { bits: LONGEST_BITS }, s);
    }
}

/// 2^j.
fn power(j: u32) -> (r: u64)
    requires
        j <= 50,
    ensures
        r == pow2(j as nat),
        r <= 0x4_0000_0000_0000,
{
    let low: u32 = if j < 24 {
        j
    } else {
        24
    };
    let x = shifted(1, low);
    proof {
        power2::lemma2_to64();
        if low < 24 {
            power2::lemma_pow2_strictly_increases(low as nat, 24);
        }
        lemma_shift_add(1, low as nat, (j - low) as nat);
        power2::lemma2_to64_rest();
        if j < 50 {
            power2::lemma_pow2_strictly_increases(j as nat, 50);
        }
    }
    shifted(x, j - low)
}

/// A time multiplied by a factor of at most 1.0.
fn times(s: Single, factor: Single) -> (r: Single)
    requires
        is_time(s),
        factor.exponent() <= 127,
    ensures
        r.magnitude() == product(s.magnitude(), factor.magnitude()),
        !r.negative(),
{
    proof {
        lemma_time_exponent(s);
    }
    let (ma, ea) = parts(s);
    let (mb, eb) = parts(factor);
    assert(ma * mb < 0x1_0000_0000_0000) by (nonlinear_arith)
        requires
            ma < 0x100_0000,
            mb < 0x100_0000,
    ;
    let m: u64 = ma * mb;
    let e: u32 = ea + eb;
    proof {
        let (a, b, c, d) = (ma as nat, pow2(ea as nat), mb as nat, pow2(eb as nat));
        lemma_shift_add(m as nat, ea as nat, eb as nat);
        assert((a * b) * (c * d) == ((a * c) * b) * d) by (nonlinear_arith);
        assert(s.magnitude() * factor.magnitude() == m * pow2(e as nat));
        power2::lemma_pow2_pos(149);
    }
    if e >= 149 {
        let up: u32 = e - 149;
        let (q, k) = round_parts(m);
        proof {
            lemma_shift_add(m as nat, up as nat, 149);
            lemma_ratio_cancels(m as nat * pow2(up as nat), 1, one());
            rounding_scales(m as nat, up as nat);
            lemma_shift_add(q as nat, k as nat, up as nat);
        }
        return assemble(q, k + up);
    }
    let down: u32 = 149 - e;
    proof {
        power2::lemma_pow2_adds(down as nat, e as nat);
        power2::lemma_pow2_pos(down as nat);
        power2::lemma_pow2_pos(e as nat);
        lemma_ratio_cancels(m as nat, pow2(down as nat), pow2(e as nat));
    }
    if down > 50 {
        proof {
            power2::lemma2_to64_rest();
            power2::lemma_pow2_strictly_increases(50, down as nat);
            lemma_ratio_vanishes(m as nat, pow2(down as nat));
            constant_magnitudes();
        }
        return Single { bits: ZERO_BITS };
    }
    let (q, k) = ratio_parts(m, power(down));
    assemble(q, k)
}

/// The sum of two times.
fn plus(a: Single, b: Single) -> (r: Single)
    requires
        is_time(a),
        is_time(b),
    ensures
        r.magnitude() == rounded(a.magnitude() + b.magnitude()),
        !r.negative(),
{
    let (big, small) = if a.bits >= b.bits {
        (a, b)
    } else {
        (b, a)
    };
    proof {
        lemma_time_exponent(a);
        lemma_time_exponent(b);
    }
    let (m, e) = parts(big);
    let (n, f) = parts(small);
    if e - f > 32 {
        proof {
            lemma_absorbs(n as nat, f as nat, m as nat, e as nat);
        }
        return big;
    }
    let sum: u64 = widen(m, e, f) + n;
    let (q, k) = round_parts(sum);
    proof {
        let x = (sum - n) as nat;
        assert(sum * pow2(f as nat) == big.magnitude() + small.magnitude()) by (nonlinear_arith)
            requires
                sum == x + n,
                x * pow2(f as nat) == big.magnitude(),
                n * pow2(f as nat) == small.magnitude(),
        ;
        rounding_scales(sum as nat, f as nat);
        lemma_shift_add(q as nat, k as nat, f as nat);
    }
    assemble(q, k + f)
}

/// Blends a new time into a smoothed one.
pub fn blend_in(old: Single, new: Single) -> (r: Single)
    requires
        is_time(old),
        is_time(new),
    ensures
        r == blended(old, new),
        is_time(r),
{
    proof {
        constant_magnitudes();
        lemma_shares(old.magnitude(), new.magnitude());
        times_stay_times(0, old, new);
    }
    let kept = times(old, Single { bits: NINETEEN_TWENTIETHS_BITS });
    let added = times(new, Single { bits: TWENTIETH_BITS });
    let r = plus(kept, added);
    proof {
        magnitude_pins_bits(r, blended(old, new));
    }
    r
}

/// A count of nanoseconds as milliseconds.
pub fn read_nanoseconds(ns: u32) -> (r: Single)
    ensures
        r == of_nanoseconds(ns),
        is_time(r),
{
    let zero = Single { bits: ZERO_BITS };
    proof {
        constant_magnitudes();
        power2::lemma_pow2_pos(162);
        times_stay_times(ns, zero, zero);
        power2::lemma2_to64();
    }
    let (m, k) = round_parts(ns as u64);
    if m == 0 {
        proof {
            assert(0 * pow2(k as nat) == 0);
            assert(0 * one() == 0);
            lemma_ratio_vanishes(0, 1_000_000);
            magnitude_pins_bits(zero, of_nanoseconds(ns));
        }
        return zero;
    }
    let (sig, e): (u64, u32) = if m < 0x1000 {
        (m * 0x1000, k + 137)
    } else {
        (m, k + 149)
    };
    let n: u64 = shifted(sig, 32);
    let (q, j) = ratio_parts(n, 1_000_000);
    let shift: u32 = e - 32;
    let r = assemble(q, j + shift);
    proof {
        lemma_shift_add(m as nat, k as nat, 149);
        if m < 0x1000 {
            lemma_shift_add(m as nat, 12, (k + 137) as nat);
        }
        lemma_shift_add(sig as nat, 32, shift as nat);
        lemma_ratio_scales(n as nat, 1_000_000, shift as nat);
        lemma_shift_add(q as nat, j as nat, shift as nat);
        magnitude_pins_bits(r, of_nanoseconds(ns));
    }
    r
}

/// Rounding moves a ratio by at most one part in 2^24, and a ratio of less
/// than 24 bits by at most a half.
pub proof fn rounding_is_close(n: nat, d: nat)
    requires
        d > 0,
    ensures
        n >= 0x80_0000 * d ==> {
            &&& 0x100_0000 * (rounded_ratio(n, d) * d) <= 0x100_0001 * n
            &&& 0xFF_FFFF * n <= 0x100_0000 * (rounded_ratio(n, d) * d)
        },
        n < 0x100_0000 * d ==> {
            &&& 2 * (rounded_ratio(n, d) * d) <= 2 * n + d
            &&& 2 * n <= 2 * (rounded_ratio(n, d) * d) + d
        },
{
    let a = n / d;
    let b = n % d;
    div_mod::lemma_fundamental_div_mod(n as int, d as int);
    lemma_quantum_range(a);
    let u = quantum(a);
    let w = d * u;
    assert(w > 0) by (nonlinear_arith)
        requires
            w == d * u,
            d > 0,
            u > 0,
    ;
    let q = n / w;
    let r = n % w;
    div_mod::lemma_fundamental_div_mod(n as int, w as int);
    assert(n == q * w + r) by (nonlinear_arith)
        requires
            n == w * q + r,
    ;
    lemma_rounded_ratio_is(n, d, u, q, r);
    let y = rounded_ratio(n, d);
    assert((q * u) * d == q * w && ((q + 1) * u) * d == q * w + w) by (nonlinear_arith)
        requires
            w == d * u,
    ;
    assert(2 * (y * d) <= 2 * n + w && 2 * n <= 2 * (y * d) + w);
    if n >= 0x80_0000 * d {
        assert(a >= 0x80_0000) by (nonlinear_arith)
            requires
                n == d * a + b,
                b < d,
                n >= 0x80_0000 * d,
        ;
        lemma_quantum_bound(a);
        assert(0x80_0000 * w <= n) by (nonlinear_arith)
            requires
                w == d * u,
                u * 0x80_0000 <= a,
                n == d * a + b,
        ;
    }
    if n < 0x100_0000 * d {
        assert(a < 0x100_0000) by (nonlinear_arith)
            requires
                n == d * a + b,
                n < 0x100_0000 * d,
        ;
        assert(w == d) by (nonlinear_arith)
            requires
                w == d * u,
                u == 1,
        ;
    }
}

/// One hundred percent, and whatever is clamped to it, is exactly one.
pub proof fn hundred_percent_is_one(pct: u8)
    requires
        pct >= 100,
    ensures
        percent_magnitude(pct) == one(),
{
    let n = 100 * one();
    power2::lemma_pow2_pos(149);
    assert(n / 100 == one());
    power2::lemma_pow2_adds(23, 126);
    power2::lemma_pow2_unfold(150);
    power2::lemma2_to64();
    power2::lemma_pow2_pos(126);
    assert(23 + 126 == 149 && 24 + 126 == 150);
    lemma_quantum_is(one(), 126);
    let u = pow2(126);
    assert(n == 0x80_0000 * (100 * u) + 0) by (nonlinear_arith)
        requires
            n == 100 * (0x80_0000 * u),
    ;
    lemma_rounded_ratio_is(n, 100, u, 0x80_0000, 0);
}

/// Of two neighbours with 24 bits, rounding takes the nearer: no number of at
/// most 24 bits lies between a number and what it is rounded to.
pub proof fn rounding_takes_a_neighbour(n: nat, m: nat, k: nat)
    requires
        m <= 0x100_0000,
    ensures
        n <= m * pow2(k) ==> rounded(n) <= m * pow2(k),
        m * pow2(k) <= n ==> m * pow2(k) <= rounded(n),
{
    rounding_keeps(m, k);
    if n <= m * pow2(k) {
        rounding_is_monotone(n, m * pow2(k));
    }
    if m * pow2(k) <= n {
        rounding_is_monotone(m * pow2(k), n);
    }
}

/// Numbers up to 2.0 are rounded by less than 2^126 units.
proof fn lemma_unit_rounding(n: nat)
    requires
        n <= 2 * one(),
    ensures
        n <= rounded(n) + pow2(126),
        rounded(n) <= n + pow2(126),
{
    rounding_is_close(n, 1);
    let y = rounded(n);
    assert(y * 1 == y);
    power2::lemma2_to64();
    power2::lemma_pow2_adds(24, 126);
    power2::lemma_pow2_unfold(150);
    power2::lemma_pow2_pos(126);
}

/// A step of the render scale moves it by a twentieth, up to one part in 2^18.
pub proof fn a_scale_step_is_a_twentieth(s: Single, r: Single)
    requires
        is_scale(s),
        !s.is_nan(),
    ensures
        is_scale_up(s, r) ==> {
            &&& r.magnitude() <= one()
            &&& 20 * r.magnitude() <= 20 * s.magnitude() + one() + pow2(131)
            &&& r.magnitude() == one() || 20 * s.magnitude() + one() <= 20 * r.magnitude() + pow2(
                131,
            )
        },
        is_scale_down(s, r) ==> {
            &&& 4 * r.magnitude() >= one()
            &&& 20 * s.magnitude() <= 20 * r.magnitude() + one() + pow2(131)
            &&& 4 * r.magnitude() == one() || 20 * r.magnitude() + one() <= 20 * s.magnitude()
                + pow2(131)
        },
{
    constant_magnitudes();
    power2::lemma2_to64();
    power2::lemma_pow2_adds(28, 121);
    power2::lemma_pow2_adds(5, 121);
    power2::lemma_pow2_adds(5, 126);
    power2::lemma_pow2_adds(2, 147);
    let t = 13421773 * pow2(121);
    lemma_unit_rounding(s.magnitude() + t);
    lemma_unit_rounding(minus(s.magnitude(), t));
}

/// A step of the sharpness moves it by a tenth, up to one part in 2^18.
pub proof fn a_sharpness_step_is_a_tenth(s: Single, r: Single)
    requires
        is_unit(s),
        !s.is_nan(),
    ensures
        is_sharper(s, r) ==> {
            &&& r.magnitude() <= one()
            &&& 10 * r.magnitude() <= 10 * s.magnitude() + one() + pow2(131)
            &&& r.magnitude() == one() || 10 * s.magnitude() + one() <= 10 * r.magnitude() + pow2(
                131,
            )
        },
        is_softer(s, r) ==> {
            &&& 10 * s.magnitude() <= 10 * r.magnitude() + one() + pow2(131)
            &&& r.magnitude() == 0 || 10 * r.magnitude() + one() <= 10 * s.magnitude() + pow2(131)
        },
{
    constant_magnitudes();
    power2::lemma2_to64();
    power2::lemma_pow2_adds(27, 122);
    power2::lemma_pow2_adds(4, 122);
    power2::lemma_pow2_adds(5, 126);
    power2::lemma_pow2_pos(122);
    let t = 13421773 * pow2(122);
    lemma_unit_rounding(s.magnitude() + t);
    lemma_unit_rounding(minus(s.magnitude(), t));
    lemma_rounded_small(0);
}

} // verus!
