//! What the timers measure, and what the overlay shows of it.

use vstd::prelude::*;

#[allow(unused_imports)]
use crate::single::Single;
#[allow(unused_imports)]
use crate::timers::{PassId, TimersModel};
use crate::{single, timers};

verus! {

/// What the overlay shows of a section: its own text with the unit, or a
/// placeholder while it has had no result.
pub open spec fn piece(timed: Option<Single>, text: Seq<char>) -> Seq<char> {
    if timed is Some {
        text + "ms"@
    } else {
        "--"@
    }
}

/// The overlay shows behind the label of each section the text of that very
/// section: convert, activate and upscale first, then sharp, scene and total.
/// The texts come in section order, which has total before sharp and scene.
pub proof fn the_overlay_shows_each_section_its_own_time(t: TimersModel, texts: Seq<Seq<char>>)
    requires
        t.wf(),
        texts.len() == 6,
    ensures
        t.supported ==> timers::overlay(t, texts) == "gpu=[convert "@ + piece(
            t.smoothed(PassId::Convert),
            texts[0],
        ) + " activate "@ + piece(t.smoothed(PassId::Activate), texts[1]) + " upscale "@ + piece(
            t.smoothed(PassId::Upscale),
            texts[2],
        ) + " sharp "@ + piece(t.smoothed(PassId::Sharp), texts[4]) + " scene "@ + piece(
            t.smoothed(PassId::Scene),
            texts[5],
        ) + " total "@ + piece(t.smoothed(PassId::Total), texts[3]) + "]"@,
        !t.supported ==> timers::overlay(t, texts) == "gpu=[timer queries unsupported]"@,
{
}

/// The text of a section that has had no result is not shown anywhere.
pub proof fn a_text_without_a_result_is_not_shown(
    t: TimersModel,
    texts: Seq<Seq<char>>,
    k: int,
    other: Seq<char>,
)
    requires
        t.wf(),
        texts.len() == 6,
        0 <= k < 6,
        !t.valid[k],
    ensures
        timers::overlay(t, texts.update(k, other)) == timers::overlay(t, texts),
{
    assert(k == 0 || k == 1 || k == 2 || k == 3 || k == 4 || k == 5);
}

/// The order of the sections in every per-section list.
pub proof fn the_order_of_the_sections(t: TimersModel)
    requires
        t.wf(),
    ensures
        t.smoothed(PassId::Convert) == if t.valid[0] {
            Some(t.ema[0])
        } else {
            None
        },
        t.smoothed(PassId::Activate) == if t.valid[1] {
            Some(t.ema[1])
        } else {
            None
        },
        t.smoothed(PassId::Upscale) == if t.valid[2] {
            Some(t.ema[2])
        } else {
            None
        },
        t.smoothed(PassId::Total) == if t.valid[3] {
            Some(t.ema[3])
        } else {
            None
        },
        t.smoothed(PassId::Sharp) == if t.valid[4] {
            Some(t.ema[4])
        } else {
            None
        },
        t.smoothed(PassId::Scene) == if t.valid[5] {
            Some(t.ema[5])
        } else {
            None
        },
{
}

/// No query slot belongs to two sections, so a result is never credited to a
/// section that was not timed.
pub proof fn sections_share_no_slot(t: TimersModel, a: PassId, b: PassId)
    requires
        t.wf(),
        t.next_slot(a) / 3 == t.next_slot(b) / 3,
    ensures
        a == b,
        0 <= t.next_slot(a) < 18,
{
    assert(t.cursor[timers::index_of(a)] < 3);
    assert(t.cursor[timers::index_of(b)] < 3);
}

/// A result that arrives in the slot that a section was begun in is that
/// section's: it alone changes.
pub proof fn a_result_goes_to_the_section_it_timed(
    t: TimersModel,
    pass: PassId,
    other: PassId,
    ns: u32,
)
    requires
        t.wf(),
        t.armed(pass),
        other != pass,
    ensures
        ({
            let at = t.next_slot(pass);
            let u = t.begun(pass).completed(at, ns);
            &&& u.smoothed(other) == t.smoothed(other)
            &&& u.smoothed(pass) is Some
            &&& t.smoothed(pass) is None ==> u.smoothed(pass) == Some(single::of_nanoseconds(ns))
            &&& u.consumed == t.consumed.update(at, true)
        }),
{
    assert(t.cursor[timers::index_of(pass)] < 3);
    let at = t.next_slot(pass);
    let u = t.begun(pass).completed(at, ns);
    assert(u.consumed =~= t.consumed.update(at, true));
}

/// Over fresh timers the first query of a section is the first of its three.
pub proof fn first_queries(queries: Seq<glow::NativeQuery>)
    requires
        queries.len() >= 18,
    ensures
        timers::fresh(true, queries).begun_query(PassId::Convert) == Some(queries[0]),
        timers::fresh(true, queries).begun_query(PassId::Activate) == Some(queries[3]),
        timers::fresh(true, queries).begun_query(PassId::Upscale) == Some(queries[6]),
        timers::fresh(true, queries).begun_query(PassId::Total) == Some(queries[9]),
        timers::fresh(true, queries).begun_query(PassId::Sharp) == Some(queries[12]),
        timers::fresh(true, queries).begun_query(PassId::Scene) == Some(queries[15]),
        forall|p: PassId| #[trigger] timers::fresh(false, queries).begun_query(p) is None,
        forall|p: PassId| #[trigger] timers::fresh(true, queries).smoothed(p) is None,
{
}

/// Timing counts as unsupported unless every slot has a query.
pub proof fn too_few_queries_time_nothing(queries: Seq<glow::NativeQuery>, p: PassId)
    requires
        queries.len() < 18,
    ensures
        !timers::fresh(true, queries).armed(p),
        timers::fresh(true, queries).begun_query(p) is None,
{
}

/// A count of nanoseconds reads as that many millionths of a millisecond, up to
/// one part in 2^22.
pub proof fn nanoseconds_are_millionths(ns: u32)
    ensures
        0x40_0000 * (1_000_000 * single::of_nanoseconds(ns).magnitude()) <= 0x40_0001 * (ns
            * single::one()),
        0x3F_FFFF * (ns * single::one()) <= 0x40_0000 * (1_000_000 * single::of_nanoseconds(
            ns,
        ).magnitude()),
{
    let zero = Single { bits: 0 };
    single::constant_magnitudes();
    vstd::arithmetic::power2::lemma_pow2_pos(162);
    single::times_stay_times(ns, zero, zero);
    let o = single::one();
    let c = single::rounded(ns as nat);
    let y = single::milliseconds(ns);
    vstd::arithmetic::power2::lemma2_to64();
    vstd::arithmetic::power2::lemma_pow2_adds(43, 106);
    vstd::arithmetic::power2::lemma_pow2_pos(106);
    vstd::arithmetic::power2::lemma2_to64_rest();
    assert(o >= 0x800_0000_0000) by (nonlinear_arith)
        requires
            o == 0x800_0000_0000 * vstd::arithmetic::power2::pow2(106),
            vstd::arithmetic::power2::pow2(106) >= 1,
    ;
    single::rounding_is_close(ns as nat, 1);
    assert(c * 1 == c);
    if ns < 0x80_0000 {
        single::rounding_keeps(ns as nat, 0);
        assert(ns as nat * 1 == ns as nat);
    }
    assert(0x100_0000 * c <= 0x100_0001 * ns && 0xFF_FFFF * ns <= 0x100_0000 * c);
    if c == 0 {
        assert(0 * o == 0);
        single::rounding_is_close(0, 1_000_000);
        assert(ns == 0);
    } else {
        assert(c * o >= 0x80_0000 * 1_000_000) by (nonlinear_arith)
            requires
                c >= 1,
                o >= 0x800_0000_0000,
        ;
        single::rounding_is_close(c * o, 1_000_000);
        let (x, z) = (c * o, ns as nat * o);
        assert(0x100_0000 * x <= 0x100_0001 * z) by (nonlinear_arith)
            requires
                0x100_0000 * c <= 0x100_0001 * ns,
                x == c * o,
                z == ns as nat * o,
        ;
        assert(0xFF_FFFF * z <= 0x100_0000 * x) by (nonlinear_arith)
            requires
                0xFF_FFFF * ns <= 0x100_0000 * c,
                x == c * o,
                z == ns as nat * o,
        ;
    }
}

/// Smoothing weighs the time so far by nineteen twentieths and the new one by
/// one, up to one part in 2^20 and two of the smallest units.
pub proof fn smoothing_weighs_nineteen_to_one(old: Single, new: Single)
    requires
        single::is_time(old),
        single::is_time(new),
    ensures
        ({
            let r = single::blended(old, new).magnitude();
            let sum = 19 * old.magnitude() + new.magnitude();
            &&& 0x10_0000 * (20 * r) <= 0x10_0001 * sum + 0x10_0000 * 40
            &&& 0xF_FFFF * sum <= 0x10_0000 * (20 * r) + 0x10_0000 * 40
        }),
{
    single::times_stay_times(0, old, new);
    single::constant_magnitudes();
    let o = single::one();
    let (s, t) = (old.magnitude(), new.magnitude());
    let x = vstd::arithmetic::power2::pow2(121);
    vstd::arithmetic::power2::lemma2_to64();
    vstd::arithmetic::power2::lemma_pow2_adds(4, 121);
    vstd::arithmetic::power2::lemma_pow2_adds(28, 121);
    vstd::arithmetic::power2::lemma_pow2_pos(121);
    let (f, g) = (255013680 * x, 13421773 * x);
    assert(o == 268435456 * x);
    let (p, q) = (single::product(s, f), single::product(t, g));
    assert(f == 15938355 * vstd::arithmetic::power2::pow2(125));
    lemma_share(s, 255013680, x);
    lemma_share(t, 13421773, x);
    single::rounding_is_close(p + q, 1);
    let r = single::rounded(p + q);
    assert(r * 1 == r);
}

/// A share of `w` parts in 2^28, up to one part in 2^24 and half a unit.
proof fn lemma_share(s: nat, w: nat, x: nat)
    requires
        single::one() == 268435456 * x,
        x > 0,
        w <= 268435456,
    ensures
        ({
            let p = single::product(s, w * x);
            &&& 0x100_0000 * (268435456 * p) <= 0x100_0001 * (s * w) + 0x100_0000 * 134217728
            &&& 0xFF_FFFF * (s * w) <= 0x100_0000 * (268435456 * p) + 0x100_0000 * 134217728
        }),
{
    let o = single::one();
    let n = s * (w * x);
    let p = single::product(s, w * x);
    let v = s * w;
    single::rounding_is_close(n, o);
    assert(n == v * x) by (nonlinear_arith)
        requires
            n == s * (w * x),
            v == s * w,
    ;
    assert(p * o == (268435456 * p) * x) by (nonlinear_arith)
        requires
            o == 268435456 * x,
    ;
    if n >= 0x80_0000 * o {
        assert(0x100_0000 * (268435456 * p) <= 0x100_0001 * v) by (nonlinear_arith)
            requires
                0x100_0000 * ((268435456 * p) * x) <= 0x100_0001 * (v * x),
                x > 0,
        ;
        assert(0xFF_FFFF * v <= 0x100_0000 * (268435456 * p)) by (nonlinear_arith)
            requires
                0xFF_FFFF * (v * x) <= 0x100_0000 * ((268435456 * p) * x),
                x > 0,
        ;
    } else {
        assert(2 * (268435456 * p) <= 2 * v + 268435456) by (nonlinear_arith)
            requires
                2 * ((268435456 * p) * x) <= 2 * (v * x) + 268435456 * x,
                x > 0,
        ;
        assert(2 * v <= 2 * (268435456 * p) + 268435456) by (nonlinear_arith)
            requires
                2 * (v * x) <= 2 * ((268435456 * p) * x) + 268435456 * x,
                x > 0,
        ;
    }
}

} // verus!
