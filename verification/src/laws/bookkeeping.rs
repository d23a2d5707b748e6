//! What is carried from one place to another, and what is left as it was.

use vstd::prelude::*;

#[allow(unused_imports)]
use crate::backend::gl::GlBackend;
#[allow(unused_imports)]
use crate::backend::GpuBackend;
#[allow(unused_imports)]
use crate::config::{FrameInputs, IgsrConfig};
#[allow(unused_imports)]
use crate::passes::stage::Stage;
#[allow(unused_imports)]
use crate::passes::{Pass, PassConfig, Variant};
#[allow(unused_imports)]
use crate::pipeline::PipelineModel;
#[allow(unused_imports)]
use crate::records::{IgsrConfigFfi, IgsrFrameInputsFfi, IgsrParamsFfi};
#[allow(unused_imports)]
use crate::resources::EntryModel;
#[allow(unused_imports)]
use crate::scene::SceneModel;
#[allow(unused_imports)]
use crate::single::Single;
#[allow(unused_imports)]
use crate::testbed::{AppModel, Extents};
#[allow(unused_imports)]
use crate::timers::{PassId, TimersModel};
#[allow(unused_imports)]
use crate::laws::Call;
use crate::{
    config, context, image, laws, passes, resources, scene, single, sources, testbed, timers,
};

verus! {

/// A configuration can be read back from its record, and a record asks for a
/// fresh start.
pub proof fn configurations_survive_their_record(a: IgsrConfig, b: IgsrConfig, r: IgsrConfigFfi)
    requires
        config::is_config_record(a, r),
        config::is_config_record(b, r),
    ensures
        a == b,
        a.render_w == r.render_w && a.render_h == r.render_h,
        a.display_w == r.display_w && a.display_h == r.display_h,
        r.prefer_compute == 1 || r.prefer_compute == 0,
        a.prefer_compute == (r.prefer_compute == 1),
        r.three_pass == 1 || r.three_pass == 0,
        a.three_pass == (r.three_pass == 1),
        r.reset == 1,
{
}

/// Frame inputs can be read back from their record.
pub proof fn inputs_survive_their_record(f: FrameInputs, g: FrameInputs, r: IgsrFrameInputsFfi)
    requires
        config::is_inputs_record(f, r),
        config::is_inputs_record(g, r),
    ensures
        f.jitter@ == g.jitter@,
        f.clip_to_prev@ == g.clip_to_prev@,
        f.pre_exposure == g.pre_exposure,
        f.camera_fov_hor == g.camera_fov_hor,
        f.camera_near == g.camera_near,
        f.min_lerp == g.min_lerp,
        f.same_camera_frames == g.same_camera_frames,
        f.same_camera_frames == r.same_camera_frames,
        f.reset == g.reset,
        r.reset == 1 || r.reset == 0,
        f.reset == (r.reset == 1),
        forall|i: int| 0 <= i < 16 ==> #[trigger] r.clip_to_prev@[i] == f.clip_to_prev@[i],
        r.jitter@[0] == f.jitter@[0] && r.jitter@[1] == f.jitter@[1],
{
}

/// Each byte of a channel has its own eight bits of the pattern, the first the
/// lowest.
pub proof fn bytes_of_a_pattern(px: Seq<u8>, at: int)
    ensures
        ({
            let bits = image::pattern_at(px, at);
            &&& 0 <= bits <= 0xFFFF_FFFF
            &&& bits % 0x100 == px[at]
            &&& (bits / 0x100) % 0x100 == px[at + 1]
            &&& (bits / 0x1_0000) % 0x100 == px[at + 2]
            &&& bits / 0x100_0000 == px[at + 3]
        }),
{
}

/// A context takes over new sizes exactly when the core replies with zero, and
/// nothing else of its configuration ever changes.
pub proof fn the_core_decides_on_sizes(
    c: IgsrConfig,
    render: (u32, u32),
    display: (u32, u32),
    reply: i32,
)
    ensures
        ({
            let d = context::answered(c, render, display, reply);
            &&& reply != 0 ==> d == c
            &&& reply == 0 ==> (d.render_w, d.render_h) == render && (d.display_w, d.display_h)
                == display
            &&& d.prefer_compute == c.prefer_compute
            &&& d.three_pass == c.three_pass
        }),
{
}

/// A frame rebuilds the pipeline when any of its four dimensions is not the
/// pipeline's, and never right after it has been rebuilt for that frame.
pub proof fn when_a_frame_rebuilds(p: PipelineModel<Stage>, e: Extents)
    ensures
        testbed::needs_rebuild(p, e) == (p.sizes.render.0 != e.render_w || p.sizes.render.1
            != e.render_h || p.sizes.display.0 != e.display_w || p.sizes.display.1 != e.display_h),
        !testbed::needs_rebuild(testbed::resized(p, e), e),
{
}

/// A window takes over a pipeline as it is, but for a sharpness asked for at
/// start, and keeps everything of its own.
pub proof fn pipelines_are_adopted_as_they_are(a: AppModel, p: PipelineModel<Stage>)
    ensures
        ({
            let b = testbed::adopted(a, p);
            &&& b == (AppModel { pipeline: b.pipeline, ..a })
            &&& b.pipeline is Some
            &&& a.init_sharp is None ==> b.pipeline->0 == p
            &&& a.init_sharp is Some ==> b.pipeline->0.cfg == (PassConfig {
                sharpness: a.init_sharp->0,
                ..p.cfg
            })
            &&& b.pipeline->0.passes == p.passes && b.pipeline->0.progs == p.progs
            &&& b.pipeline->0.sizes == p.sizes && b.pipeline->0.table == p.table
            &&& b.pipeline->0.needs_reset == p.needs_reset
        }),
{
}

/// A configuration is taken over as it is; it only touches what runs.
pub proof fn configuring_only_touches_what_runs<P: Pass>(m: PipelineModel<P>, cfg: PassConfig)
    ensures
        ({
            let n = m.reconfigured(cfg);
            &&& n.cfg == cfg
            &&& n == (PipelineModel { cfg, enabled: n.enabled, variant: n.variant, ..m })
            &&& n.enabled.len() == m.passes.len()
            &&& forall|i: int|
                0 <= i < m.passes.len() ==> #[trigger] n.enabled[i] == (m.passes[i].runs(cfg) && (
                m.progs[i].compute is Some || m.progs[i].fragment is Some))
        }),
{
}

/// A backend computes exactly when compute is there and not forced off.
pub proof fn when_a_backend_computes(b: GlBackend)
    ensures
        b.path() is Compute == (b.compute_available && !b.force_fallback),
{
}

/// Integers of at most 24 bits convert exactly.
pub proof fn small_integers_convert_exactly(n: u32)
    requires
        n < 0x100_0000,
    ensures
        single::of_u32(n).magnitude() == n * single::one(),
        !single::of_u32(n).negative(),
{
    single::small_integers_have_a_pattern(n);
}

/// The queries that are outstanding are listed each once, in slot order, with
/// the slot they belong to.
pub proof fn outstanding_queries_are_listed(t: TimersModel, n: nat, at: int)
    requires
        t.wf(),
        n <= 18,
        0 <= at < n,
    ensures
        ({
            let list = timers::pending_before(t, n as int);
            &&& t.pending_at(at) == exists|k: int|
                0 <= k < list.len() && (#[trigger] list[k]).0 == at
            &&& forall|k: int|
                0 <= k < list.len() && (#[trigger] list[k]).0 == at ==> Some(list[k].1)
                    == t.slots[at]
            &&& forall|j: int, k: int|
                0 <= j < k < list.len() ==> (#[trigger] list[j]).0 < (#[trigger] list[k]).0
            &&& forall|k: int| 0 <= k < list.len() ==> 0 <= (#[trigger] list[k]).0 < n
        }),
    decreases n,
{
    let list = timers::pending_before(t, n as int);
    let init = timers::pending_before(t, n - 1);
    lemma_pending_in_order(t, n);
    if at < n - 1 {
        outstanding_queries_are_listed(t, (n - 1) as nat, at);
        if t.pending_at(at) {
            let k = choose|k: int| 0 <= k < init.len() && (#[trigger] init[k]).0 == at;
            assert(list[k].0 == at);
        }
        assert forall|k: int| 0 <= k < list.len() && (#[trigger] list[k]).0 == at implies Some(
            list[k].1,
        ) == t.slots[at] && k < init.len() && t.pending_at(at) by {
            assert(list[k] == init[k]);
        }
    } else {
        lemma_pending_in_order(t, (n - 1) as nat);
        if t.pending_at(at) {
            assert(list[init.len() as int].0 == at);
        }
        assert forall|k: int| 0 <= k < list.len() && (#[trigger] list[k]).0 == at implies Some(
            list[k].1,
        ) == t.slots[at] && t.pending_at(at) by {
            if k < init.len() {
                assert(list[k] == init[k]);
            }
        }
    }
}

proof fn lemma_pending_in_order(t: TimersModel, n: nat)
    ensures
        ({
            let list = timers::pending_before(t, n as int);
            &&& forall|j: int, k: int|
                0 <= j < k < list.len() ==> (#[trigger] list[j]).0 < (#[trigger] list[k]).0
            &&& forall|k: int| 0 <= k < list.len() ==> 0 <= (#[trigger] list[k]).0 < n
        }),
    decreases n,
{
    if n > 0 {
        lemma_pending_in_order(t, (n - 1) as nat);
        let list = timers::pending_before(t, n as int);
        let init = timers::pending_before(t, n - 1);
        assert forall|k: int| 0 <= k < init.len() implies #[trigger] list[k] == init[k] by {}
        assert forall|j: int, k: int| 0 <= j < k < list.len() implies (#[trigger] list[j]).0 < (
        #[trigger] list[k]).0 by {
            assert(list[j] == init[j]);
            assert(init[j].0 < n - 1);
        }
    }
}

/// The order in which the sections take turns, over and over.
pub proof fn the_order_of_the_turns(round: nat)
    ensures
        timers::turn(6 * round) == PassId::Convert,
        timers::turn(6 * round + 1) == PassId::Upscale,
        timers::turn(6 * round + 2) == PassId::Activate,
        timers::turn(6 * round + 3) == PassId::Total,
        timers::turn(6 * round + 4) == PassId::Sharp,
        timers::turn(6 * round + 5) == PassId::Scene,
{
}

/// A variant is reported missing exactly when its pass does not implement it.
pub proof fn what_is_missing<P: Pass>(list: Seq<P>, i: int)
    requires
        0 <= i < list.len(),
        forall|j: int, k: int|
            0 <= j < k < list.len() ==> (#[trigger] list[j]).label() != (
            #[trigger] list[k]).label(),
    ensures
        sources::all_missing(list).contains((list[i].label(), Variant::Compute))
            == !list[i].offered().compute,
        sources::all_missing(list).contains((list[i].label(), Variant::Fragment))
            == !list[i].offered().fragment,
{
    lemma_missing(list, list.len(), i, Variant::Compute);
    lemma_missing(list, list.len(), i, Variant::Fragment);
    assert(list.take(list.len() as int) =~= list);
}

/// Pass `p` does not implement `v`.
pub open spec fn lacks<P: Pass>(p: P, v: Variant) -> bool {
    match v {
        Variant::Compute => !p.offered().compute,
        Variant::Fragment => !p.offered().fragment,
    }
}

proof fn lemma_missing<P: Pass>(list: Seq<P>, n: nat, i: int, v: Variant)
    requires
        n <= list.len(),
        0 <= i < list.len(),
        forall|j: int, k: int|
            0 <= j < k < list.len() ==> (#[trigger] list[j]).label() != (
            #[trigger] list[k]).label(),
    ensures
        sources::all_missing(list.take(n as int)).contains((list[i].label(), v)) == (i < n && lacks(
            list[i],
            v,
        )),
    decreases n,
{
    let x = (list[i].label(), v);
    if n > 0 {
        lemma_missing(list, (n - 1) as nat, i, v);
        let part = list.take(n as int);
        assert(part.drop_last() =~= list.take(n - 1));
        let init = sources::all_missing(list.take(n - 1));
        let more = sources::missing_of(list[n - 1]);
        let all = sources::all_missing(part);
        assert(all == init + more);
        if i < n - 1 {
            assert(list[i].label() != list[n - 1].label());
        } else if i > n - 1 {
            assert(list[n - 1].label() != list[i].label());
        }
        if init.contains(x) {
            let k = choose|k: int| 0 <= k < init.len() && init[k] == x;
            assert(all[k] == x);
        }
        if i == n - 1 && lacks(list[i], v) {
            let k = if v is Fragment && lacks(list[i], Variant::Compute) {
                1int
            } else {
                0int
            };
            assert(more[k] == x);
            assert(all[init.len() + k] == x);
        }
        if all.contains(x) {
            let k = choose|k: int| 0 <= k < all.len() && all[k] == x;
            if k < init.len() {
                assert(init[k] == x);
            } else {
                assert(more[k - init.len()] == x);
                assert(x.0 == list[n - 1].label());
                assert(more.len() <= 2);
                assert(k - init.len() == 0 || k - init.len() == 1);
            }
        }
    }
}

/// Of the default passes only activate lacks a variant, and what it lacks is
/// the fragment one.
pub proof fn activate_alone_lacks_a_variant(list: Seq<Stage>, i: int, v: Variant)
    requires
        passes::stage::is_default(list),
        0 <= i < 4,
    ensures
        lacks(list[i], v) == (i == 1 && v is Fragment),
{
    assert(i == 0 || i == 1 || i == 2 || i == 3);
}

/// Registering a texture under a name leaves every other resource as it was.
pub proof fn registering_leaves_others_alone(
    entries: Seq<EntryModel>,
    name: Seq<char>,
    other: Seq<char>,
    tex: glow::NativeTexture,
)
    requires
        name != other,
    ensures
        resources::read_of(resources::with_external(entries, name, tex), other)
            == resources::read_of(entries, other),
        resources::write_of(resources::with_external(entries, name, tex), other)
            == resources::write_of(entries, other),
{
    resources::position_finds(entries, name);
    resources::position_finds(entries, other);
    resources::external_keeps_the_shape(entries, name, tex);
    resources::position_follows_names(
        entries,
        resources::with_external(entries, name, tex),
        other,
    );
}

/// What a resource holds is a registered texture in place of its first, and
/// nothing else changes of it.
pub proof fn registering_replaces_the_first_texture(
    entries: Seq<EntryModel>,
    name: Seq<char>,
    tex: glow::NativeTexture,
)
    requires
        resources::entries_wf(entries),
        resources::position(entries, name) is Some,
    ensures
        ({
            let i = resources::position(entries, name)->0;
            let (e, f) = (entries[i], resources::with_external(entries, name, tex)[i]);
            &&& f.tex.len() == e.tex.len()
            &&& f.tex[0] == tex
            &&& forall|k: int| 1 <= k < e.tex.len() ==> #[trigger] f.tex[k] == e.tex[k]
            &&& f.fbo == e.fbo && f.read == e.read && f.spec == e.spec
        }),
{
    resources::position_finds(entries, name);
    assert(entries[resources::position(entries, name)->0].wf());
}

/// Motion is measured against the frame before; in a first frame the camera
/// has not moved.
pub proof fn the_camera_of_the_frame_before<M>(before: Option<SceneModel<M>>, vp: M)
    ensures
        before is Some ==> scene::vp_before(before, vp) == before->0.vp,
        before is None ==> scene::vp_before(before, vp) == vp,
{
}

/// The frame inputs carry the camera's numbers unchanged, its reprojection with
/// rows and columns swapped, and the window's own cut state; exposure, near
/// plane and least share of the new frame are fixed.
pub proof fn inputs_carry_the_camera(
    a: AppModel,
    jitter: Seq<Single>,
    clip: Seq<Single>,
    fov: Single,
    r: FrameInputs,
)
    requires
        clip.len() == 16,
        testbed::are_inputs(a, jitter, clip, fov, r),
    ensures
        r.jitter@ == jitter,
        forall|row: int, col: int|
            0 <= row < 4 && 0 <= col < 4 ==> #[trigger] r.clip_to_prev@[4 * row + col] == clip[4 * col
                + row],
        r.camera_fov_hor == fov,
        r.pre_exposure.bits == 0x3F80_0000,
        r.camera_near.bits == 0x3DCC_CCCD,
        r.min_lerp.bits == 0x3E4C_CCCD,
        r.same_camera_frames == a.same_camera,
        r.reset == (a.pipeline is Some && a.pipeline->0.needs_reset),
{
    assert forall|row: int, col: int| 0 <= row < 4 && 0 <= col < 4 implies #[trigger] r.clip_to_prev@[4
        * row + col] == clip[4 * col + row] by {
        assert((4 * row + col) % 4 == col && (4 * row + col) / 4 == row);
    }
}

/// A self test that was asked for is due once.
pub proof fn the_self_test_is_due_once(a: AppModel)
    ensures
        testbed::is_due(a) == (a.selftest && !a.selftest_done),
        !testbed::is_due(testbed::asked_for_selftest(a)),
        testbed::asked_for_selftest(a) == (AppModel {
            selftest_done: testbed::asked_for_selftest(a).selftest_done,
            ..a
        }),
        testbed::is_due(a) ==> testbed::asked_for_selftest(a).selftest_done,
{
}

/// A pipeline starts on the path and with the passes it is asked for, at a
/// sharpness of 0.3.
pub proof fn how_a_pipeline_starts(use_compute: bool, three_pass: bool)
    ensures
        passes::starting_config(use_compute, three_pass).use_compute == use_compute,
        passes::starting_config(use_compute, three_pass).three_pass == three_pass,
        passes::starting_config(use_compute, three_pass).sharpness.bits == 0x3E99_999A,
{
}

/// A frame that has run leaves no reset behind, and touches nothing but the
/// textures' turns, the timers and what the scene pushed out.
pub proof fn a_frame_clears_the_reset<P: Pass>(m: PipelineModel<P>, params: IgsrParamsFfi)
    ensures
        ({
            let n = laws::after_call(m, Call::Run(params));
            &&& !n.needs_reset
            &&& n == (PipelineModel {
                table: n.table,
                stale: n.stale,
                timers: n.timers,
                needs_reset: false,
                ..m
            })
            &&& resources::same_names(m.table, n.table)
            &&& n.timers.ema == m.timers.ema && n.timers.valid == m.timers.valid
        }),
{
    lemma_passes_rename_nothing(m, params, m.passes.len());
    let t1 = resources::with_external(m.table, "color"@, m.scene.color);
    let t2 = resources::with_external(t1, "velocity"@, m.scene.velocity);
    resources::external_keeps_the_shape(m.table, "color"@, m.scene.color);
    resources::external_keeps_the_shape(t1, "velocity"@, m.scene.velocity);
    resources::external_keeps_the_shape(t2, "depth"@, m.scene.depth);
    let (a, b, c) = (
        m.table,
        m.frame_start().table,
        m.after_passes(params, m.passes.len()).table,
    );
    assert forall|i: int| 0 <= i < a.len() implies (#[trigger] a[i]).spec.name == c[i].spec.name by {
        assert(t1[i].spec.name == a[i].spec.name);
        assert(t2[i].spec.name == t1[i].spec.name);
        assert(b[i].spec.name == t2[i].spec.name);
    }
}

proof fn lemma_passes_rename_nothing<P: Pass>(
    m: PipelineModel<P>,
    params: IgsrParamsFfi,
    k: nat,
)
    ensures
        resources::same_names(m.frame_start().table, m.after_passes(params, k).table),
        m.after_passes(params, k).timers.ema == m.timers.ema,
        m.after_passes(params, k).timers.valid == m.timers.valid,
    decreases k,
{
    if k > 0 {
        lemma_passes_rename_nothing(m, params, (k - 1) as nat);
        let t = m.after_passes(params, (k - 1) as nat).table;
        resources::flips_keep_the_shape(t, m.passes[k - 1].flow().writes);
        let (a, c) = (m.frame_start().table, m.after_passes(params, k).table);
        assert forall|i: int| 0 <= i < a.len() implies (#[trigger] a[i]).spec.name
            == c[i].spec.name by {
            assert(t[i].spec.name == a[i].spec.name);
        }
    }
}

} // verus!
