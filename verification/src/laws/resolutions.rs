//! How render sizes follow from display sizes, in whole numbers.

use vstd::prelude::*;

#[allow(unused_imports)]
use crate::config::{IgsrConfig, QualityMode};
#[allow(unused_imports)]
use crate::single::Single;
use crate::{config, single, testbed};

verus! {

/// A scaled dimension is the whole part of the product, up to one part in
/// 2^24 of it, and exactly the product where that is whole.
pub proof fn scaling_is_proportional(dim: u32, magnitude: nat)
    requires
        dim < 0x100_0000,
        magnitude <= single::one(),
    ensures
        0x100_0000 * (single::scaled(dim, magnitude) * single::one()) <= 0x100_0001 * (dim
            * magnitude),
        0xFF_FFFF * (dim * magnitude) < 0x100_0000 * ((single::scaled(dim, magnitude) + 1)
            * single::one()),
        forall|k: nat|
            dim * magnitude == #[trigger] (k * single::one()) ==> single::scaled(dim, magnitude)
                == k,
{
    let o = single::one();
    let n = dim as nat * magnitude;
    let r = single::rounded(n);
    vstd::arithmetic::power2::lemma_pow2_pos(149);
    single::rounding_keeps(dim as nat, 0);
    vstd::arithmetic::power2::lemma2_to64();
    assert(dim as nat * 1 == dim as nat);
    assert(single::rounded(dim as nat) == dim as nat);
    single::scaling_never_enlarges(dim, magnitude);
    single::rounding_is_close(n, 1);
    assert(r * 1 == r);
    let e = r / o;
    vstd::arithmetic::div_mod::lemma_fundamental_div_mod(r as int, o as int);
    assert(n <= dim as nat * o) by (nonlinear_arith)
        requires
            n == dim as nat * magnitude,
            magnitude <= o,
    ;
    single::rounding_is_monotone(n, dim as nat * o);
    single::rounding_keeps(dim as nat, 149);
    assert(e <= dim) by (nonlinear_arith)
        requires
            r <= dim as nat * o,
            r == o * e + r % o,
            r % o >= 0,
            o > 0,
    ;
    assert(single::scaled(dim, magnitude) == e);
    assert(e * o <= r && r < (e + 1) * o) by (nonlinear_arith)
        requires
            r == o * e + r % o,
            0 <= r % o < o,
    ;
    vstd::arithmetic::power2::lemma_pow2_adds(24, 125);
    if n < 0x80_0000 {
        vstd::arithmetic::power2::lemma_pow2_pos(125);
        assert(r <= n + 1);
        assert(e == 0) by (nonlinear_arith)
            requires
                e * o <= r,
                r <= 0x80_0000,
                o >= 0x100_0000,
        ;
    }
    assert forall|k: nat| n == #[trigger] (k * o) implies e == k by {
        assert(k <= dim) by (nonlinear_arith)
            requires
                k * o <= dim as nat * o,
                o > 0,
        ;
        single::rounding_keeps(k, 149);
        assert(e == k) by (nonlinear_arith)
            requires
                e * o <= k * o,
                k * o < (e + 1) * o,
                o > 0,
        ;
    }
}

/// The magnitude of a mode is its percentage of one, up to one part in 2^24.
proof fn lemma_mode_magnitude(mode: QualityMode, pct: nat)
    requires
        pct == match mode {
            QualityMode::Performance => 50nat,
            QualityMode::Balanced => 59nat,
            QualityMode::Quality => 67nat,
            QualityMode::Custom(p) => if p < 25 {
                25nat
            } else if p > 100 {
                100nat
            } else {
                p as nat
            },
        },
    ensures
        mode.magnitude() <= single::one(),
        0x100_0000 * (100 * mode.magnitude()) <= 0x100_0001 * (pct * single::one()),
        0xFF_FFFF * (pct * single::one()) <= 0x100_0000 * (100 * mode.magnitude()),
{
    let o = single::one();
    let x = vstd::arithmetic::power2::pow2(125);
    vstd::arithmetic::power2::lemma2_to64();
    vstd::arithmetic::power2::lemma_pow2_adds(24, 125);
    vstd::arithmetic::power2::lemma_pow2_adds(23, 125);
    vstd::arithmetic::power2::lemma_pow2_adds(25, 124);
    vstd::arithmetic::power2::lemma_pow2_pos(124);
    vstd::arithmetic::power2::lemma_pow2_pos(125);
    single::constant_magnitudes();
    match mode {
        QualityMode::Performance => {},
        QualityMode::Balanced => {
            let s = Single { bits: config::BALANCED_BITS };
            assert(s.exponent() == 126 && s.fraction() == 9898557 - 0x80_0000);
            assert(mode.magnitude() == 9898557 * x);
        },
        QualityMode::Quality => {
            let s = Single { bits: config::QUALITY_BITS };
            assert(s.exponent() == 126 && s.fraction() == 11240735 - 0x80_0000);
            assert(mode.magnitude() == 11240735 * x);
        },
        QualityMode::Custom(p) => {
            single::percent_is_at_most_one(p);
            single::rounding_is_close(pct * o, 100);
            assert(pct * o >= 0x80_0000 * 100) by (nonlinear_arith)
                requires
                    pct >= 25,
                    o >= 0x200_0000,
            ;
        },
    }
}

/// From the percentage of a dimension to its bounds.
proof fn lemma_percentage(dim: u32, magnitude: nat, pct: nat)
    requires
        dim <= 0x1_0000,
        pct <= 100,
        magnitude <= single::one(),
        0x100_0000 * (100 * magnitude) <= 0x100_0001 * (pct * single::one()),
        0xFF_FFFF * (pct * single::one()) <= 0x100_0000 * (100 * magnitude),
    ensures
        100 * single::scaled(dim, magnitude) <= dim * pct,
        dim * pct <= 100 * (single::scaled(dim, magnitude) + 1),
{
    let o = single::one();
    let e = single::scaled(dim, magnitude);
    let d = dim as nat * pct;
    let n = dim as nat * magnitude;
    vstd::arithmetic::power2::lemma_pow2_pos(149);
    scaling_is_proportional(dim, magnitude);
    assert(d <= 0x1_0000 * 100) by (nonlinear_arith)
        requires
            d == dim as nat * pct,
            dim <= 0x1_0000,
            pct <= 100,
    ;
    assert(0x100_0000 * (100 * n) <= 0x100_0001 * (d * o)) by (nonlinear_arith)
        requires
            0x100_0000 * (100 * magnitude) <= 0x100_0001 * (pct * o),
            n == dim as nat * magnitude,
            d == dim as nat * pct,
    ;
    assert(0xFF_FFFF * (d * o) <= 0x100_0000 * (100 * n)) by (nonlinear_arith)
        requires
            0xFF_FFFF * (pct * o) <= 0x100_0000 * (100 * magnitude),
            n == dim as nat * magnitude,
            d == dim as nat * pct,
    ;
    let x = e * o;
    let y = (e + 1) * o;
    let z = d * o;
    assert(0x100_0000 * (0x100_0000 * (100 * x)) <= 0x100_0001 * (0x100_0001 * z));
    assert(0xFF_FFFF * (0xFF_FFFF * z) < 0x100_0000 * (0x100_0000 * (100 * y)));
    assert(0x100_0000 * (0x100_0000 * (100 * e)) <= 0x100_0001 * (0x100_0001 * d))
        by (nonlinear_arith)
        requires
            0x100_0000 * (0x100_0000 * (100 * (e * o))) <= 0x100_0001 * (0x100_0001 * (d * o)),
            o > 0,
    ;
    assert(0xFF_FFFF * (0xFF_FFFF * d) < 0x100_0000 * (0x100_0000 * (100 * (e + 1))))
        by (nonlinear_arith)
        requires
            0xFF_FFFF * (0xFF_FFFF * (d * o)) < 0x100_0000 * (0x100_0000 * (100 * ((e + 1) * o))),
            o > 0,
    ;
}

/// The render dimension is the mode's percentage of the display dimension: 50
/// for performance, 59 for balanced, 67 for quality, and the percentage asked
/// for, from 25 to 100, for a custom mode. Less than a pixel is lost, and one
/// pixel is always left.
pub proof fn modes_take_their_percentage(display: u32, mode: QualityMode)
    requires
        display <= 0x1_0000,
    ensures
        ({
            let pct: int = match mode {
                QualityMode::Performance => 50,
                QualityMode::Balanced => 59,
                QualityMode::Quality => 67,
                QualityMode::Custom(p) => if p < 25 {
                    25
                } else if p > 100 {
                    100
                } else {
                    p as int
                },
            };
            let r = config::render_dim(display, mode);
            &&& r >= 1
            &&& r > 1 ==> 100 * r <= display * pct
            &&& display * pct <= 100 * (r + 1)
        }),
{
    let pct: nat = match mode {
        QualityMode::Performance => 50nat,
        QualityMode::Balanced => 59nat,
        QualityMode::Quality => 67nat,
        QualityMode::Custom(p) => if p < 25 {
            25nat
        } else if p > 100 {
            100nat
        } else {
            p as nat
        },
    };
    lemma_mode_magnitude(mode, pct);
    lemma_percentage(display, mode.magnitude(), pct);
}

/// A higher percentage never renders fewer pixels, and all of them at one
/// hundred percent.
pub proof fn more_percent_means_more_pixels(display: u32, a: u8, b: u8)
    requires
        a <= b,
    ensures
        config::render_dim(display, QualityMode::Custom(a)) <= config::render_dim(
            display,
            QualityMode::Custom(b),
        ),
        0 < display < 0x100_0000 && b >= 100 ==> config::render_dim(
            display,
            QualityMode::Custom(b),
        ) == display,
{
    let (p, q) = (single::clamped_percent(a), single::clamped_percent(b));
    let (m, n) = (single::percent_magnitude(a), single::percent_magnitude(b));
    let o = single::one();
    vstd::arithmetic::power2::lemma_pow2_pos(149);
    lemma_mode_magnitude(QualityMode::Custom(a), p);
    lemma_mode_magnitude(QualityMode::Custom(b), q);
    assert(m <= n) by {
        if p < q {
            assert(0x100_0001 * (p * o) <= 0xFF_FFFF * (q * o)) by (nonlinear_arith)
                requires
                    p + 1 <= q,
                    q <= 100,
            ;
        }
    }
    let d = single::rounded(display as nat);
    assert(d * m <= d * n) by (nonlinear_arith)
        requires
            m <= n,
    ;
    single::rounding_is_monotone(d * m, d * n);
    vstd::arithmetic::div_mod::lemma_div_is_ordered(
        single::rounded(d * m) as int,
        single::rounded(d * n) as int,
        o as int,
    );
    if 0 < display < 0x100_0000 && b >= 100 {
        vstd::arithmetic::power2::lemma2_to64();
        single::rounding_keeps(1, 149);
        assert(n == o) by {
            vstd::arithmetic::power2::lemma_pow2_adds(23, 126);
            single::hundred_percent_is_one(b);
        }
        scaling_is_proportional(display, n);
        assert(display as nat * n == display as nat * o);
    }
}

/// One axis of a frame.
proof fn lemma_axis(display: u32, scale: Single, render: nat)
    requires
        320 <= display < 0x100_0000 || 200 <= display < 0x100_0000,
        single::is_scale(scale),
        !scale.is_nan(),
        render == single::larger(single::extent(display, scale), 8),
    ensures
        render >= 8,
        render <= display,
        render > 8 ==> 0x100_0000 * (render * single::one()) <= 0x100_0001 * (display
            * scale.magnitude()),
        0xFF_FFFF * (display * scale.magnitude()) < 0x100_0000 * ((render + 1) * single::one()),
        forall|k: nat|
            display * scale.magnitude() == #[trigger] (k * single::one()) && k >= 8 ==> render == k,
{
    scaling_is_proportional(display, scale.magnitude());
    single::scaling_never_enlarges(display, scale.magnitude());
    let e = single::scaled(display, scale.magnitude());
    assert((e + 1) * single::one() <= (render + 1) * single::one()) by (nonlinear_arith)
        requires
            e <= render,
    ;
}

/// A frame is as large as its window, but never below 320 by 200, and is
/// rendered at the scale in force: the render size is the whole part of the
/// scaled display size, up to one part in 2^24 of it, exactly the scaled size
/// where that is whole, and never below 8 by 8.
pub proof fn frames_fill_the_window(width: u32, height: u32, scale: Single)
    requires
        single::is_scale(scale),
    ensures
        ({
            let e = testbed::frame_extents(width, height, scale);
            let m = scale.magnitude();
            let one = single::one();
            &&& width >= 320 ==> e.display_w == width
            &&& width < 320 ==> e.display_w == 320
            &&& height >= 200 ==> e.display_h == height
            &&& height < 200 ==> e.display_h == 200
            &&& scale.is_nan() ==> e.render_w == 8 && e.render_h == 8
            &&& !scale.is_nan() && width < 0x100_0000 ==> {
                &&& 8 <= e.render_w <= e.display_w
                &&& e.render_w > 8 ==> 0x100_0000 * (e.render_w * one) <= 0x100_0001 * (e.display_w
                    * m)
                &&& 0xFF_FFFF * (e.display_w * m) < 0x100_0000 * ((e.render_w + 1) * one)
                &&& forall|k: nat|
                    e.display_w * m == #[trigger] (k * one) && k >= 8 ==> e.render_w == k
            }
            &&& !scale.is_nan() && height < 0x100_0000 ==> {
                &&& 8 <= e.render_h <= e.display_h
                &&& e.render_h > 8 ==> 0x100_0000 * (e.render_h * one) <= 0x100_0001 * (e.display_h
                    * m)
                &&& 0xFF_FFFF * (e.display_h * m) < 0x100_0000 * ((e.render_h + 1) * one)
                &&& forall|k: nat|
                    e.display_h * m == #[trigger] (k * one) && k >= 8 ==> e.render_h == k
            }
        }),
{
    let e = testbed::frame_extents(width, height, scale);
    if !scale.is_nan() && width < 0x100_0000 {
        lemma_axis(e.display_w, scale, e.render_w as nat);
    }
    if !scale.is_nan() && height < 0x100_0000 {
        lemma_axis(e.display_h, scale, e.render_h as nat);
    }
}

/// At full scale every pixel of the display is rendered, and at half scale
/// every other one per axis.
pub proof fn full_and_half_scale(width: u32, height: u32)
    requires
        320 <= width < 0x100_0000,
        200 <= height < 0x100_0000,
    ensures
        ({
            let e = testbed::frame_extents(width, height, Single { bits: 0x3F80_0000 });
            &&& (e.render_w, e.render_h) == (width, height)
        }),
        ({
            let e = testbed::frame_extents(width, height, Single { bits: 0x3F00_0000 });
            &&& (e.render_w, e.render_h) == (width / 2, height / 2)
        }),
{
    let full = Single { bits: 0x3F80_0000 };
    let half = Single { bits: 0x3F00_0000 };
    let o = single::one();
    single::constant_magnitudes();
    vstd::arithmetic::power2::lemma_pow2_unfold(148);
    vstd::arithmetic::power2::lemma_pow2_unfold(149);
    vstd::arithmetic::power2::lemma_pow2_pos(147);
    frames_fill_the_window(width, height, full);
    assert(width as nat * o == width as nat * full.magnitude());
    assert(height as nat * o == height as nat * full.magnitude());
    lemma_half(width, half);
    lemma_half(height, half);
    assert(width / 2 >= 8 && height / 2 >= 8);
}

/// Half a dimension, odd ones rounded down.
proof fn lemma_half(dim: u32, half: Single)
    requires
        dim < 0x100_0000,
        half.bits == 0x3F00_0000,
    ensures
        single::extent(dim, half) == dim / 2,
{
    let h = single::pow2(148);
    let o = single::one();
    single::constant_magnitudes();
    vstd::arithmetic::power2::lemma_pow2_pos(148);
    vstd::arithmetic::power2::lemma_pow2_unfold(149);
    vstd::arithmetic::power2::lemma2_to64();
    single::rounding_keeps(dim as nat, 0);
    assert(dim as nat * 1 == dim as nat);
    single::rounding_keeps(dim as nat, 148);
    let n = dim as nat * h;
    let k = (dim / 2) as nat;
    let r = ((dim % 2) as nat) * h;
    assert(n == k * o + r && r < o) by (nonlinear_arith)
        requires
            n == dim as nat * h,
            dim as nat == 2 * k + (dim % 2) as nat,
            (dim % 2) < 2,
            r == ((dim % 2) as nat) * h,
            o == 2 * h,
            h > 0,
    ;
    vstd::arithmetic::div_mod::lemma_fundamental_div_mod_converse(
        n as int,
        o as int,
        k as int,
        r as int,
    );
}

/// A configuration derived from a display has the display's size, and each of
/// its render dimensions is the mode's percentage of the same dimension of the
/// display.
pub proof fn derived_configurations(
    c: IgsrConfig,
    display_w: u32,
    display_h: u32,
    mode: QualityMode,
    pct: int,
)
    requires
        config::is_derived(c, display_w, display_h, mode),
        0 < display_w <= 0x1_0000,
        0 < display_h <= 0x1_0000,
        pct == match mode {
            QualityMode::Performance => 50int,
            QualityMode::Balanced => 59int,
            QualityMode::Quality => 67int,
            QualityMode::Custom(p) => if p < 25 {
                25int
            } else if p > 100 {
                100int
            } else {
                p as int
            },
        },
    ensures
        c.display_w == display_w,
        c.display_h == display_h,
        1 <= c.render_w <= display_w,
        1 <= c.render_h <= display_h,
        c.render_w > 1 ==> 100 * c.render_w <= display_w * pct,
        display_w * pct <= 100 * (c.render_w + 1),
        c.render_h > 1 ==> 100 * c.render_h <= display_h * pct,
        display_h * pct <= 100 * (c.render_h + 1),
        c.prefer_compute,
        !c.three_pass,
{
    modes_take_their_percentage(display_w, mode);
    modes_take_their_percentage(display_h, mode);
    config::modes_render_below_the_display(display_w, mode);
    config::modes_render_below_the_display(display_h, mode);
}

} // verus!
