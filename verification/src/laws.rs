//! What holds of the default pipeline as a whole.

use vstd::prelude::*;

#[allow(unused_imports)]
use crate::commands::CommandModel;
#[allow(unused_imports)]
use crate::passes::stage::Stage;
#[allow(unused_imports)]
use crate::passes::{Inputs, Pass, PassConfig, Variant};
#[allow(unused_imports)]
use crate::pipeline::{PipelineModel, RunState, SceneTargets};
#[allow(unused_imports)]
use crate::records::IgsrParamsFfi;
#[allow(unused_imports)]
use crate::resources::{EntryModel, Release, Sizes, SpecModel, TapHandles};
#[allow(unused_imports)]
use crate::timers::{PassId, TimersModel};
use crate::{passes, pipeline, resources, sources, timers};

pub mod bookkeeping;
pub mod driver;
pub mod frame;
pub mod resolutions;
pub mod screen;
pub mod shading;
pub mod timing;
pub mod trial;
pub mod window;

verus! {

/// Whatever the pass, what it wrote is what the passes behind it read under
/// the same name.
pub proof fn a_pass_publishes_what_it_wrote<P: Pass>(
    m: PipelineModel<P>,
    i: int,
    params: IgsrParamsFfi,
    st: RunState,
    k: int,
)
    requires
        resources::entries_wf(st.table),
        m.passes[i].flow().writes.no_duplicates(),
        0 <= k < m.passes[i].flow().writes.len(),
        resources::position(st.table, m.passes[i].flow().writes[k]) is Some,
    ensures
        resources::read_of(m.pass_run(i, params, st).table, m.passes[i].flow().writes[k]) == Some(
            m.inputs_of(i, params, st.table).writes[k],
        ),
{
    resources::readers_see_all_writes(st.table, m.passes[i].flow().writes, k);
}

/// Whatever the pass, a resource that it does not write stays as it was.
pub proof fn a_pass_leaves_the_rest_alone<P: Pass>(
    m: PipelineModel<P>,
    i: int,
    params: IgsrParamsFfi,
    st: RunState,
    name: Seq<char>,
)
    requires
        !m.passes[i].flow().writes.contains(name),
    ensures
        resources::read_of(m.pass_run(i, params, st).table, name) == resources::read_of(
            st.table,
            name,
        ),
{
    resources::writes_leave_others_alone(st.table, m.passes[i].flow().writes, name);
}

/// Pass `j` does not claim the output.
pub open spec fn claims_nothing<P: Pass>(m: PipelineModel<P>, j: int) -> bool {
    !m.enabled[j] || m.passes[j].flow().final_output is None
}

proof fn lemma_output_stays<P: Pass>(m: PipelineModel<P>, params: IgsrParamsFfi, k: nat, n: nat)
    requires
        k <= n,
        forall|j: int| k <= j < n ==> #[trigger] claims_nothing(m, j),
    ensures
        m.after_passes(params, n).output == m.after_passes(params, k).output,
    decreases n,
{
    if k < n {
        lemma_output_stays(m, params, k, (n - 1) as nat);
        assert(claims_nothing(m, n - 1));
    }
}

/// The frame ends in what the last running pass with a final output left
/// there.
pub proof fn the_last_final_output_wins<P: Pass>(
    m: PipelineModel<P>,
    params: IgsrParamsFfi,
    k: int,
    t: glow::NativeTexture,
)
    requires
        0 <= k < m.passes.len(),
        m.enabled[k],
        m.passes[k].flow().final_output is Some,
        resources::read_of(
            m.after_passes(params, (k + 1) as nat).table,
            m.passes[k].flow().final_output->0,
        ) == Some(t),
        forall|j: int| k < j < m.passes.len() ==> #[trigger] claims_nothing(m, j),
    ensures
        m.frame_end(params).output == t,
{
    lemma_output_stays(m, params, (k + 1) as nat, m.passes.len());
}

/// The resources of the default pipeline, in the order in which they are
/// declared.
pub open spec fn default_specs() -> Seq<SpecModel> {
    seq![
        passes::convert::depth_spec(),
        passes::convert::velocity_spec(),
        passes::convert::color_spec(),
        passes::convert::data_spec(),
        passes::activate::luma_spec(),
        passes::upscale::history_spec(),
        passes::upscale::scene_out_spec(),
        passes::sharpen::sharp_spec(),
    ]
}

/// A table of the default pipeline.
pub open spec fn is_default_table(t: Seq<EntryModel>) -> bool {
    &&& t.len() == 8
    &&& resources::entries_wf(t)
    &&& forall|i: int| 0 <= i < 8 ==> (#[trigger] t[i]).spec == default_specs()[i]
}

/// No two resources of the default pipeline share a name.
pub proof fn default_names_differ()
    ensures
        forall|i: int, j: int|
            0 <= i < j < 8 ==> (#[trigger] default_specs()[i]).name != (
            #[trigger] default_specs()[j]).name,
{
    reveal_strlit("depth");
    reveal_strlit("velocity");
    reveal_strlit("color");
    reveal_strlit("data");
    reveal_strlit("luma");
    reveal_strlit("history");
    reveal_strlit("scene_out");
    reveal_strlit("sharp");
    let s = default_specs();
    assert(s[0].name[0] == 'd' && s[2].name[0] == 'c' && s[7].name[0] == 's');
    assert(s[3].name[0] == 'd' && s[4].name[0] == 'l');
    assert(s[0].name.len() == 5 && s[1].name.len() == 8 && s[2].name.len() == 5);
    assert(s[3].name.len() == 4 && s[4].name.len() == 4 && s[5].name.len() == 7);
    assert(s[6].name.len() == 9 && s[7].name.len() == 5);
    assert forall|i: int, j: int| 0 <= i < j < 8 implies (#[trigger] s[i]).name != (
    #[trigger] s[j]).name by {
        assert(i == 0 || i == 1 || i == 2 || i == 3 || i == 4 || i == 5 || i == 6);
        assert(j == 1 || j == 2 || j == 3 || j == 4 || j == 5 || j == 6 || j == 7);
    }
}

proof fn lemma_distinct_keeps(specs: Seq<SpecModel>)
    requires
        forall|i: int, j: int|
            0 <= i < j < specs.len() ==> (#[trigger] specs[i]).name != (#[trigger] specs[j]).name,
    ensures
        resources::distinct(specs) == specs,
    decreases specs.len(),
{
    if specs.len() > 0 {
        let init = specs.drop_last();
        assert forall|i: int, j: int| 0 <= i < j < init.len() implies (#[trigger] init[i]).name != (
        #[trigger] init[j]).name by {
            assert(init[i] == specs[i] && init[j] == specs[j]);
        }
        lemma_distinct_keeps(init);
        if resources::declares(init, specs.last().name) {
            let k = choose|k: int|
                0 <= k < init.len() && (#[trigger] init[k]).name == specs.last().name;
            assert(specs[k].name != specs[specs.len() - 1].name);
        }
        assert(init.push(specs.last()) =~= specs);
    } else {
        assert(resources::distinct(specs) =~= specs);
    }
}

/// The default pipeline allocates its eight resources, each once.
pub proof fn default_declarations(list: Seq<Stage>)
    requires
        passes::stage::is_default(list),
    ensures
        pipeline::declarations(list) == default_specs(),
        resources::distinct(pipeline::declarations(list)) == default_specs(),
{
    reveal_with_fuel(pipeline::declarations, 5);
    let d1 = list.drop_last();
    let d2 = d1.drop_last();
    let d3 = d2.drop_last();
    assert(d3.last() == list[0] && d2.last() == list[1] && d1.last() == list[2]);
    assert(d3.drop_last().len() == 0);
    assert(pipeline::declarations(list) =~= default_specs());
    default_names_differ();
    lemma_distinct_keeps(default_specs());
}

/// What is created for a resize of the default pipeline makes a table of it.
pub proof fn resizing_makes_a_default_table(
    list: Seq<Stage>,
    sizes: Sizes,
    handles: Seq<TapHandles>,
)
    requires
        passes::stage::is_default(list),
        resources::handles_fit(resources::plan_of(pipeline::declarations(list), sizes), handles),
    ensures
        is_default_table(
            resources::installed(
                resources::plan_of(pipeline::declarations(list), sizes),
                handles,
            ),
        ),
{
    default_declarations(list);
    let plan = resources::plan_of(pipeline::declarations(list), sizes);
    let t = resources::installed(plan, handles);
    assert forall|i: int| 0 <= i < t.len() implies (#[trigger] t[i]).wf() by {
        assert(plan[i].taps > 0);
    }
    assert forall|i: int| 0 <= i < 8 implies (#[trigger] t[i]).spec == default_specs()[i] by {
        assert(plan[i] == resources::allocation_of(default_specs()[i], sizes));
    }
}

/// Each name of the default pipeline is found where it was declared.
pub proof fn default_positions(t: Seq<EntryModel>, i: int)
    requires
        is_default_table(t),
        0 <= i < 8,
    ensures
        resources::position(t, default_specs()[i].name) == Some(i),
{
    default_names_differ();
    let name = default_specs()[i].name;
    resources::position_finds(t, name);
    assert(t[i].spec.name == name);
    match resources::position(t, name) {
        Some(k) => {
            assert(t[k].spec == default_specs()[k]);
            if k < i {
                assert(default_specs()[k].name != default_specs()[i].name);
            } else if i < k {
                assert(t[i].spec.name != name);
            }
        },
        None => {},
    }
}

/// With its textures installed, the default pipeline can run, provided that
/// the group counts of its sizes fit.
pub proof fn default_pipeline_is_ready(m: PipelineModel<Stage>)
    requires
        m.wf(),
        passes::stage::is_default(m.passes),
        is_default_table(m.table),
        passes::dispatchable(m.sizes.render),
        passes::dispatchable(m.sizes.display),
    ensures
        m.ready(),
{
    default_positions(m.table, 3);
    default_positions(m.table, 5);
    default_positions(m.table, 7);
    assert forall|i: int|
        #![trigger m.enabled[i]]
        0 <= i < m.passes.len() && m.enabled[i] implies {
        &&& passes::dispatchable(m.sizes.render)
        &&& passes::dispatchable(m.sizes.display)
        &&& m.variant[i] == Variant::Fragment && m.passes[i].flow().writes.len() > 0
            ==> resources::position(m.table, m.passes[i].flow().writes[0]) is Some
    } by {
        assert(i == 0 || i == 1 || i == 2 || i == 3);
    }
}

/// Changing the configuration twice is changing it to the second one.
pub proof fn last_configuration_wins<P: Pass>(m: PipelineModel<P>, a: PassConfig, b: PassConfig)
    ensures
        m.reconfigured(a).reconfigured(b) == m.reconfigured(b),
{
    let x = m.reconfigured(a).reconfigured(b);
    let y = m.reconfigured(b);
    assert(x.enabled =~= y.enabled);
    assert(x.variant =~= y.variant);
}

/// Going back to the configuration in force changes nothing.
pub proof fn reconfiguring_back_restores<P: Pass>(m: PipelineModel<P>, a: PassConfig)
    requires
        m.wf(),
    ensures
        m.reconfigured(a).reconfigured(m.cfg) == m,
{
    last_configuration_wins(m, a, m.cfg);
    assert(m.reconfigured(m.cfg).enabled =~= m.enabled);
    assert(m.reconfigured(m.cfg).variant =~= m.variant);
}

/// Pinned to the fragment path, a pass with a fragment program runs it, and
/// the compute-only pass does not run at all.
pub proof fn pinned_to_fragment(m: PipelineModel<Stage>)
    requires
        m.wf(),
        passes::stage::is_default(m.passes),
        !m.cfg.use_compute,
    ensures
        !m.enabled[1],
        forall|i: int|
            0 <= i < 4 && m.progs[i].fragment is Some ==> (#[trigger] m.variant[i])
                == Variant::Fragment,
{
}

/// On the compute path, a pass runs its compute program where it has one and
/// falls back to its fragment program where it has not.
pub proof fn compute_with_fallback<P: Pass>(m: PipelineModel<P>, i: int)
    requires
        m.wf(),
        m.cfg.use_compute,
        0 <= i < m.passes.len(),
    ensures
        m.progs[i].compute is Some ==> m.variant[i] == Variant::Compute,
        m.progs[i].compute is None ==> m.variant[i] == Variant::Fragment,
{
}

/// A pass that runs always has the program of the variant it runs on.
pub proof fn enabled_passes_have_programs<P: Pass>(m: PipelineModel<P>, i: int)
    requires
        m.wf(),
        0 <= i < m.passes.len(),
        m.enabled[i],
    ensures
        pipeline::program_of(m.progs[i], m.variant[i]) is Some,
{
}

/// The views of the default pipeline are motion, luma and clip, in every
/// configuration.
pub proof fn default_views(list: Seq<Stage>)
    requires
        passes::stage::is_default(list),
    ensures
        sources::all_views(list).len() == 3,
        sources::all_views(list)[0].label == "motion"@,
        sources::all_views(list)[0].source == "data"@,
        sources::all_views(list)[1].label == "luma"@,
        sources::all_views(list)[1].source == "luma"@,
        sources::all_views(list)[2].label == "clip"@,
        sources::all_views(list)[2].source == "data"@,
{
    reveal_with_fuel(sources::all_views, 5);
    let d1 = list.drop_last();
    let d2 = d1.drop_last();
    let d3 = d2.drop_last();
    assert(d3.last() == list[0] && d2.last() == list[1] && d1.last() == list[2]);
    assert(d3.drop_last().len() == 0);
}

proof fn lemma_default_external(t: Seq<EntryModel>, i: int, tex: glow::NativeTexture)
    requires
        is_default_table(t),
        0 <= i < 8,
    ensures
        is_default_table(resources::with_external(t, default_specs()[i].name, tex)),
        forall|k: int|
            0 <= k < 8 && k != i ==> #[trigger] resources::with_external(
                t,
                default_specs()[i].name,
                tex,
            )[k] == t[k],
{
    default_positions(t, i);
    resources::external_keeps_the_shape(t, default_specs()[i].name, tex);
}

proof fn lemma_default_flip(t: Seq<EntryModel>, i: int)
    requires
        is_default_table(t),
        0 <= i < 8,
    ensures
        is_default_table(resources::flip_one(t, default_specs()[i].name)),
        resources::flip_one(t, default_specs()[i].name) == t.update(i, t[i].flipped()),
{
    default_positions(t, i);
    resources::flip_keeps_the_shape(t, default_specs()[i].name);
}

/// The table once pass `i` has run on `t`.
spec fn flipped_by(t: Seq<EntryModel>, i: int) -> Seq<EntryModel> {
    if i == 0 {
        t.update(3, t[3].flipped())
    } else if i == 1 {
        t.update(3, t[3].flipped()).update(4, t[4].flipped())
    } else if i == 2 {
        t.update(5, t[5].flipped())
    } else {
        t
    }
}

proof fn lemma_pass_flips(list: Seq<Stage>, i: int, t: Seq<EntryModel>)
    requires
        passes::stage::is_default(list),
        0 <= i < 4,
        is_default_table(t),
    ensures
        resources::flip_all(t, list[i].flow().writes) == flipped_by(t, i),
        is_default_table(flipped_by(t, i)),
{
    let names = list[i].flow().writes;
    reveal_with_fuel(resources::flip_all, 3);
    assert(names.drop_last().len() == names.len() - 1);
    if i == 0 {
        lemma_default_flip(t, 3);
    } else if i == 1 {
        assert(names.drop_last().last() == names[0]);
        lemma_default_flip(t, 3);
        lemma_default_flip(t.update(3, t[3].flipped()), 4);
    } else if i == 2 {
        assert(names.drop_last().last() == names[0]);
        lemma_default_flip(t, 5);
        let u = t.update(5, t[5].flipped());
        lemma_default_flip(u, 6);
        assert(u[6].spec == default_specs()[6]);
        assert(u.update(6, u[6].flipped()) =~= u);
    } else {
        lemma_default_flip(t, 7);
        assert(t[7].spec == default_specs()[7]);
        assert(t.update(7, t[7].flipped()) =~= t);
    }
}

/// The table of the default pipeline after `k` passes.
proof fn lemma_table_after(m: PipelineModel<Stage>, params: IgsrParamsFfi, k: nat)
    requires
        m.wf(),
        passes::stage::is_default(m.passes),
        is_default_table(m.table),
        k <= 4,
    ensures
        is_default_table(m.after_passes(params, k).table),
        m.after_passes(params, 0).table == m.frame_start().table,
        k > 0 && m.enabled[k - 1] ==> m.after_passes(params, k).table == flipped_by(
            m.after_passes(params, (k - 1) as nat).table,
            k - 1,
        ),
        k > 0 && !m.enabled[k - 1] ==> m.after_passes(params, k) == m.after_passes(
            params,
            (k - 1) as nat,
        ),
        forall|i: int| 3 <= i < 8 ==> #[trigger] m.frame_start().table[i] == m.table[i],
    decreases k,
{
    let t1 = resources::with_external(m.table, "color"@, m.scene.color);
    let t2 = resources::with_external(t1, "velocity"@, m.scene.velocity);
    lemma_default_external(m.table, 2, m.scene.color);
    lemma_default_external(t1, 1, m.scene.velocity);
    lemma_default_external(t2, 0, m.scene.depth);
    if k > 0 {
        lemma_table_after(m, params, (k - 1) as nat);
        lemma_pass_flips(m.passes, k - 1, m.after_passes(params, (k - 1) as nat).table);
    }
}

/// How often a condition counts.
pub open spec fn once_if(b: bool) -> nat {
    if b {
        1
    } else {
        0
    }
}

/// A frame flips `data` once on two passes and twice on three, `luma` only
/// with three, and `history` once; the other resources keep their tap.
pub proof fn flips_of_a_frame(m: PipelineModel<Stage>, params: IgsrParamsFfi)
    requires
        m.wf(),
        passes::stage::is_default(m.passes),
        is_default_table(m.table),
    ensures
        is_default_table(m.frame_end(params).table),
        m.frame_end(params).table[3] == resources::flipped_times(
            m.table[3],
            once_if(m.enabled[0]) + once_if(m.enabled[1]),
        ),
        m.frame_end(params).table[4] == resources::flipped_times(
            m.table[4],
            once_if(m.enabled[1]),
        ),
        m.frame_end(params).table[5] == resources::flipped_times(
            m.table[5],
            once_if(m.enabled[2]),
        ),
        m.frame_end(params).table[6] == m.table[6],
        m.frame_end(params).table[7] == m.table[7],
{
    reveal_with_fuel(resources::flipped_times, 3);
    lemma_table_after(m, params, 0);
    lemma_table_after(m, params, 1);
    lemma_table_after(m, params, 2);
    lemma_table_after(m, params, 3);
    lemma_table_after(m, params, 4);
    let t0 = m.frame_start().table;
    assert(t0[3] == m.table[3] && t0[4] == m.table[4] && t0[5] == m.table[5] && t0[6] == m.table[6]
        && t0[7] == m.table[7]);
}

/// The scene textures of this frame are what the passes read as color,
/// velocity and depth.
pub proof fn passes_read_the_scene(m: PipelineModel<Stage>, params: IgsrParamsFfi)
    requires
        m.wf(),
        passes::stage::is_default(m.passes),
        is_default_table(m.table),
    ensures
        m.inputs_of(0, params, m.after_passes(params, 0).table).reads == seq![
            m.scene.depth,
            m.scene.velocity,
        ],
        m.inputs_of(2, params, m.after_passes(params, 2).table).reads[0] == m.scene.color,
{
    let t0 = m.table;
    let t1 = resources::with_external(t0, "color"@, m.scene.color);
    let t2 = resources::with_external(t1, "velocity"@, m.scene.velocity);
    let t3 = resources::with_external(t2, "depth"@, m.scene.depth);
    lemma_default_external(t0, 2, m.scene.color);
    lemma_default_external(t1, 1, m.scene.velocity);
    lemma_default_external(t2, 0, m.scene.depth);
    default_positions(t0, 2);
    default_positions(t1, 1);
    default_positions(t2, 0);
    assert(t0[2].spec == default_specs()[2] && t1[1].spec == default_specs()[1] && t2[0].spec
        == default_specs()[0]);
    assert(t0[2].wf() && t1[1].wf() && t2[0].wf());
    lemma_table_after(m, params, 0);
    lemma_table_after(m, params, 1);
    lemma_table_after(m, params, 2);
    let u = m.after_passes(params, 2).table;
    assert(u[2] == t3[2]);
    default_positions(t3, 0);
    default_positions(t3, 1);
    default_positions(u, 2);
    assert(m.inputs_of(0, params, m.after_passes(params, 0).table).reads =~= seq![
        m.scene.depth,
        m.scene.velocity,
    ]);
}

/// Upscale reads the history of the frame before and writes another tap, and
/// the tap it wrote is what the before/after toggle shows, what sharpen
/// reads and what the next frame reads as history. Sharpening never feeds
/// back into it.
pub proof fn history_is_the_unsharpened_frame(m: PipelineModel<Stage>, params: IgsrParamsFfi)
    requires
        m.wf(),
        passes::stage::is_default(m.passes),
        is_default_table(m.table),
        m.enabled[2],
    ensures
        ({
            let up = m.inputs_of(2, params, m.after_passes(params, 2).table);
            let sharp = m.inputs_of(3, params, m.after_passes(params, 3).table);
            let end = m.frame_end(params);
            &&& Some(up.reads[2]) == resources::read_of(m.table, "history"@)
            &&& m.table[5].write_tap() != m.table[5].read
            &&& up.writes[0] == m.table[5].tex[m.table[5].write_tap() as int]
            &&& resources::read_of(end.table, "history"@) == Some(up.writes[0])
            &&& sharp.reads == seq![up.writes[0]]
            &&& m.enabled[3] ==> end.output == sharp.writes[0]
            &&& !m.enabled[3] ==> end.output == m.scene.color
        }),
{
    lemma_table_after(m, params, 0);
    lemma_table_after(m, params, 1);
    lemma_table_after(m, params, 2);
    lemma_table_after(m, params, 3);
    lemma_table_after(m, params, 4);
    let t0 = m.frame_start().table;
    assert(t0[5] == m.table[5] && t0[7] == m.table[7]);
    let t2 = m.after_passes(params, 2).table;
    let t3 = m.after_passes(params, 3).table;
    let t4 = m.after_passes(params, 4).table;
    default_positions(m.table, 5);
    default_positions(t2, 5);
    default_positions(t3, 5);
    default_positions(t4, 5);
    default_positions(t3, 7);
    default_positions(t4, 7);
    assert(t2[5] == m.table[5]);
    assert(m.table[5].wf() && m.table[5].spec == default_specs()[5]);
    resources::writer_and_readers_are_apart(m.table[5]);
    assert(t3[7] == m.table[7]);
    assert(m.table[7].wf() && m.table[7].spec == default_specs()[7]);
    let sharp = m.inputs_of(3, params, t3);
    let up = m.inputs_of(2, params, t2);
    assert(sharp.reads =~= seq![up.writes[0]]);
}

/// Without a running sharpen pass nothing claims the output, and the frame
/// ends in the scene as it was drawn.
pub proof fn output_without_sharpen(m: PipelineModel<Stage>, params: IgsrParamsFfi)
    requires
        m.wf(),
        passes::stage::is_default(m.passes),
        !m.enabled[3],
    ensures
        m.frame_end(params).output == m.scene.color,
{
    reveal_with_fuel(PipelineModel::<Stage>::after_passes, 5);
}

/// A command that starts or stops a query.
pub open spec fn is_query(c: CommandModel) -> bool {
    c is BeginQuery || c is EndQuery
}

/// The commands of a list that start or stop a query.
pub open spec fn queries(list: Seq<CommandModel>) -> Seq<CommandModel>
    decreases list.len(),
{
    if list.len() == 0 {
        Seq::empty()
    } else if is_query(list.last()) {
        queries(list.drop_last()).push(list.last())
    } else {
        queries(list.drop_last())
    }
}

proof fn lemma_queries_add(a: Seq<CommandModel>, b: Seq<CommandModel>)
    ensures
        queries(a + b) == queries(a) + queries(b),
    decreases b.len(),
{
    if b.len() == 0 {
        assert(a + b =~= a);
        assert(queries(a) + queries(b) =~= queries(a));
    } else {
        lemma_queries_add(a, b.drop_last());
        assert((a + b).drop_last() =~= a + b.drop_last());
        assert((a + b).last() == b.last());
        if is_query(b.last()) {
            assert(queries(a) + queries(b.drop_last()).push(b.last()) =~= (queries(a) + queries(
                b.drop_last(),
            )).push(b.last()));
        }
    }
}

proof fn lemma_no_queries(list: Seq<CommandModel>)
    requires
        forall|i: int| 0 <= i < list.len() ==> !is_query(#[trigger] list[i]),
    ensures
        queries(list) == Seq::<CommandModel>::empty(),
    decreases list.len(),
{
    if list.len() > 0 {
        let init = list.drop_last();
        assert forall|i: int| 0 <= i < init.len() implies !is_query(#[trigger] init[i]) by {
            assert(init[i] == list[i]);
        }
        lemma_no_queries(init);
        assert(!is_query(list[list.len() - 1]));
    }
}

/// No pass of the default pipeline touches the timers.
pub proof fn passes_leave_timers_alone(stage: Stage, i: Inputs)
    ensures
        queries(stage.work(i)) == Seq::<CommandModel>::empty(),
{
    let w = stage.work(i);
    assert forall|k: int| 0 <= k < w.len() implies !is_query(#[trigger] w[k]) by {}
    lemma_no_queries(w);
}

proof fn lemma_bindings_have_no_queries(
    variant: Variant,
    table: Seq<EntryModel>,
    names: Seq<Seq<char>>,
    sizes: Sizes,
)
    ensures
        queries(pipeline::bindings(variant, table, names, sizes)) == Seq::<CommandModel>::empty(),
    decreases names.len(),
{
    match variant {
        Variant::Compute => {
            if names.len() > 0 {
                lemma_bindings_have_no_queries(variant, table, names.drop_last(), sizes);
                let init = pipeline::image_bindings(table, names.drop_last());
                let all = pipeline::image_bindings(table, names);
                if all.len() == init.len() + 1 {
                    assert(all.drop_last() =~= init);
                }
            }
        },
        Variant::Fragment => {
            lemma_no_queries(pipeline::target_binding(table, names, sizes));
        },
    }
}

/// What a section adds to the queries of a frame.
pub open spec fn section_queries(t: TimersModel, section: Option<PassId>) -> Seq<CommandModel> {
    pipeline::begin_commands(t, section) + pipeline::end_commands(
        pipeline::timers_begun(t, section),
        section,
    )
}

proof fn lemma_section_commands(t: TimersModel, section: Option<PassId>)
    ensures
        queries(pipeline::begin_commands(t, section)) == pipeline::begin_commands(t, section),
        queries(pipeline::end_commands(t, section)) == pipeline::end_commands(t, section),
{
    reveal_with_fuel(queries, 2);
    let b = pipeline::begin_commands(t, section);
    let e = pipeline::end_commands(t, section);
    assert(queries(b) =~= b);
    assert(queries(e) =~= e);
}

proof fn lemma_pass_queries(m: PipelineModel<Stage>, i: int, params: IgsrParamsFfi, st: RunState)
    ensures
        queries(m.pass_run(i, params, st).commands) == queries(st.commands) + section_queries(
            st.timers,
            pipeline::section_of(m.passes[i].label()),
        ),
{
    let pass = m.passes[i];
    let section = pipeline::section_of(pass.label());
    let inputs = m.inputs_of(i, params, st.table);
    let timing = pipeline::timers_begun(st.timers, section);
    let p1 = pipeline::bindings(m.variant[i], st.table, pass.flow().writes, m.sizes);
    let p2 = pipeline::begin_commands(st.timers, section);
    let p3 = seq![CommandModel::UseProgram(inputs.program)];
    let p4 = pass.work(inputs);
    let p5 = seq![CommandModel::UseProgram(None)];
    let p6 = pipeline::end_commands(timing, section);
    lemma_bindings_have_no_queries(m.variant[i], st.table, pass.flow().writes, m.sizes);
    lemma_section_commands(st.timers, section);
    lemma_section_commands(timing, section);
    lemma_no_queries(p3);
    passes_leave_timers_alone(pass, inputs);
    lemma_no_queries(p5);
    lemma_queries_add(st.commands, p1);
    lemma_queries_add(st.commands + p1, p2);
    lemma_queries_add(st.commands + p1 + p2, p3);
    lemma_queries_add(st.commands + p1 + p2 + p3, p4);
    lemma_queries_add(st.commands + p1 + p2 + p3 + p4, p5);
    lemma_queries_add(st.commands + p1 + p2 + p3 + p4 + p5, p6);
    assert(queries(m.pass_run(i, params, st).commands) =~= queries(st.commands) + section_queries(
        st.timers,
        section,
    ));
}

/// The section that pass `i` of the default pipeline is timed as.
pub open spec fn section_at(i: int) -> PassId {
    if i == 0 {
        PassId::Convert
    } else if i == 1 {
        PassId::Activate
    } else if i == 2 {
        PassId::Upscale
    } else {
        PassId::Sharp
    }
}

/// Each pass of the default pipeline is timed as a section of its own.
pub proof fn default_sections(list: Seq<Stage>, i: int)
    requires
        passes::stage::is_default(list),
        0 <= i < 4,
    ensures
        pipeline::section_of(list[i].label()) == Some(section_at(i)),
{
    reveal_strlit("convert");
    reveal_strlit("activate");
    reveal_strlit("upscale");
    reveal_strlit("sharpen");
    assert("convert"@[0] == 'c' && "upscale"@[0] == 'u' && "sharpen"@[0] == 's');
    assert("activate"@.len() == 8);
}

/// A section that a frame of the pipeline times when it has the turn: the
/// whole frame, or a pass that runs.
pub open spec fn times(m: PipelineModel<Stage>, p: PassId) -> bool {
    match p {
        PassId::Convert => m.enabled[0],
        PassId::Activate => m.enabled[1],
        PassId::Upscale => m.enabled[2],
        PassId::Total => true,
        PassId::Sharp => m.enabled[3],
        PassId::Scene => false,
    }
}

/// Starting and stopping the query of `p`.
pub open spec fn one_query(t: TimersModel, p: PassId) -> Seq<CommandModel> {
    seq![CommandModel::BeginQuery(t.slots[t.next_slot(p)]->0), CommandModel::EndQuery]
}

proof fn lemma_step_queries(m: PipelineModel<Stage>, params: IgsrParamsFfi, k: nat, p: PassId)
    requires
        passes::stage::is_default(m.passes),
        0 < k <= 4,
        m.after_passes(params, (k - 1) as nat).timers.wf(),
        m.after_passes(params, (k - 1) as nat).timers.only == Some(p),
    ensures
        ({
            let before = m.after_passes(params, (k - 1) as nat);
            let after = m.after_passes(params, k);
            &&& after.timers.wf()
            &&& after.timers.only == Some(p)
            &&& after.timers.supported == before.timers.supported
            &&& !(m.enabled[k - 1] && section_at(k - 1) == p && before.timers.supported) ==> {
                &&& after.timers == before.timers
                &&& queries(after.commands) == queries(before.commands)
            }
            &&& (m.enabled[k - 1] && section_at(k - 1) == p && before.timers.supported)
                ==> queries(after.commands) == queries(before.commands) + one_query(
                before.timers,
                p,
            )
        }),
{
    let before = m.after_passes(params, (k - 1) as nat);
    let after = m.after_passes(params, k);
    if m.enabled[k - 1] {
        default_sections(m.passes, k - 1);
        lemma_pass_queries(m, k - 1, params, before);
        let section = section_at(k - 1);
        let added = section_queries(before.timers, Some(section));
        if before.timers.armed(section) {
            assert(before.timers.cursor[timers::index_of(section)] < 3);
            assert(before.timers.slots[before.timers.next_slot(section)] is Some);
            assert(added =~= one_query(before.timers, p));
        } else {
            assert(added =~= Seq::empty());
            assert(queries(before.commands) + added =~= queries(before.commands));
        }
    }
}

/// A frame issues at most one timer query: that of the section whose turn it
/// is, started and stopped once, and only where that section runs.
pub proof fn one_query_per_frame(m: PipelineModel<Stage>, params: IgsrParamsFfi, p: PassId)
    requires
        m.wf(),
        passes::stage::is_default(m.passes),
        m.timers.only == Some(p),
    ensures
        queries(m.frame_end(params).commands) == if m.timers.supported && times(m, p) {
            one_query(m.timers, p)
        } else {
            Seq::empty()
        },
{
    let st0 = m.after_passes(params, 0);
    let st4 = m.after_passes(params, 4);
    let total = Some(PassId::Total);
    lemma_section_commands(m.timers, total);
    assert(m.timers.cursor[3] < 3);
    assert(m.timers.supported ==> m.timers.slots[m.timers.next_slot(PassId::Total)] is Some);
    lemma_step_queries(m, params, 1, p);
    lemma_step_queries(m, params, 2, p);
    lemma_step_queries(m, params, 3, p);
    lemma_step_queries(m, params, 4, p);
    lemma_section_commands(st4.timers, total);
    lemma_queries_add(st4.commands, pipeline::end_commands(st4.timers, total));
    let all = queries(m.frame_end(params).commands);
    if m.timers.supported && times(m, p) {
        assert(all =~= one_query(m.timers, p));
    } else {
        assert(all =~= Seq::empty());
    }
}

/// Cached uniform locations of different programs never mix: a key stands
/// for one pass and one variant.
pub proof fn keys_name_programs(i: int, v: Variant, j: int, w: Variant)
    requires
        i * 2 + pipeline::variant_index(v) == j * 2 + pipeline::variant_index(w),
    ensures
        i == j,
        v == w,
{
}

proof fn lemma_flips_keep_what_is_held(t: Seq<EntryModel>, names: Seq<Seq<char>>)
    ensures
        resources::all_released(resources::flip_all(t, names)) == resources::all_released(t),
    decreases names.len(),
{
    if names.len() > 0 {
        lemma_flips_keep_what_is_held(t, names.drop_last());
        resources::a_flip_keeps_what_is_held(
            resources::flip_all(t, names.drop_last()),
            names.last(),
        );
    }
}

proof fn lemma_passes_keep_what_is_held<P: Pass>(
    m: PipelineModel<P>,
    params: IgsrParamsFfi,
    k: nat,
)
    ensures
        resources::all_released(m.after_passes(params, k).table) == resources::all_released(
            m.frame_start().table,
        ),
    decreases k,
{
    if k > 0 {
        lemma_passes_keep_what_is_held(m, params, (k - 1) as nat);
        lemma_flips_keep_what_is_held(
            m.after_passes(params, (k - 1) as nat).table,
            m.passes[k - 1].flow().writes,
        );
    }
}

proof fn lemma_listed(list: Seq<glow::NativeTexture>, t: glow::NativeTexture)
    requires
        list.contains(t),
    ensures
        pipeline::textures(list).contains(Release::Texture(t)),
{
    let k = choose|k: int| 0 <= k < list.len() && list[k] == t;
    assert(pipeline::textures(list)[k] == Release::Texture(t));
}

/// The pipeline once a frame has run.
pub open spec fn after_frame<P: Pass>(m: PipelineModel<P>, params: IgsrParamsFfi) -> PipelineModel<
    P,
> {
    PipelineModel {
        table: m.frame_end(params).table,
        stale: m.stale + m.scene_displaces(),
        timers: m.frame_end(params).timers,
        needs_reset: false,
        ..m
    }
}

/// Registering the scene takes `r` out of the table: it is a texture that was
/// registered from outside under one of the scene's names.
pub open spec fn replaced_by_the_scene<P: Pass>(m: PipelineModel<P>, r: Release) -> bool {
    let t1 = resources::with_external(m.table, "color"@, m.scene.color);
    let t2 = resources::with_external(t1, "velocity"@, m.scene.velocity);
    ||| resources::registered(m.table, "color"@) matches Some(t) && r == Release::Texture(t)
    ||| resources::registered(t1, "velocity"@) matches Some(t) && r == Release::Texture(t)
    ||| resources::registered(t2, "depth"@) matches Some(t) && r == Release::Texture(t)
}

/// A frame loses no GL object: what the pipeline answered for before it, the
/// pipeline answers for after it, so the next resize deletes it. Only a
/// texture registered from outside in place of the scene's leaves.
pub proof fn a_frame_loses_nothing<P: Pass>(m: PipelineModel<P>, params: IgsrParamsFfi, r: Release)
    requires
        m.holdings().contains(r),
        !replaced_by_the_scene(m, r),
    ensures
        after_frame(m, params).holdings().contains(r),
{
    let n = after_frame(m, params);
    lemma_passes_keep_what_is_held(m, params, m.passes.len());
    let t0 = m.table;
    let t1 = resources::with_external(t0, "color"@, m.scene.color);
    let t2 = resources::with_external(t1, "velocity"@, m.scene.velocity);
    let t3 = resources::with_external(t2, "depth"@, m.scene.depth);
    let a = resources::all_released(t0);
    let b = pipeline::textures(m.stale);
    let c = pipeline::textures(seq![m.scene.color, m.scene.velocity, m.scene.depth]);
    let a2 = resources::all_released(n.table);
    let b2 = pipeline::textures(n.stale);
    assert(a2 == resources::all_released(t3));
    let (all, all2) = (a + b + c, a2 + b2 + c);
    resources::each_once_keeps_every_object(all);
    resources::each_once_keeps_every_object(all2);
    let d1 = pipeline::listed(resources::displaced(t0, "color"@));
    let d2 = pipeline::listed(resources::displaced(t1, "velocity"@));
    let d3 = pipeline::listed(resources::displaced(t2, "depth"@));
    let k = choose|k: int| 0 <= k < all.len() && all[k] == r;
    if k < a.len() {
        assert(a[k] == r);
        resources::registering_loses_nothing(t0, "color"@, m.scene.color, r);
        let stale = m.stale + d1 + d2 + d3;
        assert(n.stale =~= stale);
        if resources::all_released(t1).contains(r) {
            resources::registering_loses_nothing(t1, "velocity"@, m.scene.velocity, r);
            if resources::all_released(t2).contains(r) {
                resources::registering_loses_nothing(t2, "depth"@, m.scene.depth, r);
                if !resources::all_released(t3).contains(r) {
                    let t = resources::displaced(t2, "depth"@)->0;
                    assert(stale[(m.stale.len() + d1.len() + d2.len()) as int] == t);
                    lemma_listed(stale, t);
                }
            } else {
                let t = resources::displaced(t1, "velocity"@)->0;
                assert(stale[(m.stale.len() + d1.len()) as int] == t);
                lemma_listed(stale, t);
            }
        } else {
            let t = resources::displaced(t0, "color"@)->0;
            assert(stale[m.stale.len() as int] == t);
            lemma_listed(stale, t);
        }
        if a2.contains(r) {
            let j = choose|j: int| 0 <= j < a2.len() && a2[j] == r;
            assert(all2[j] == r);
        } else {
            let j = choose|j: int| 0 <= j < b2.len() && b2[j] == r;
            assert(all2[a2.len() + j] == r);
        }
    } else if k < a.len() + b.len() {
        let j = k - a.len();
        assert(b[j] == r);
        assert(n.stale[j] == m.stale[j]);
        assert(b2[j] == r);
        assert(all2[a2.len() + j] == r);
    } else {
        let j = k - a.len() - b.len();
        assert(c[j] == r);
        assert(all2[a2.len() + b2.len() + j] == r);
    }
}

/// A resize deletes every texture and framebuffer of the table, every texture
/// of the table's own that was pushed out of it, and the scene's textures, and
/// it deletes nothing twice.
pub proof fn a_resize_deletes_each_object_once<P: Pass>(m: PipelineModel<P>)
    ensures
        m.holdings().no_duplicates(),
        forall|i: int, k: int|
            0 <= i < m.table.len() && 0 <= k < m.table[i].tex.len() ==> m.holdings().contains(
                Release::Texture(#[trigger] m.table[i].tex[k]),
            ),
        forall|i: int, k: int|
            0 <= i < m.table.len() && 0 <= k < m.table[i].fbo.len() ==> m.holdings().contains(
                Release::Framebuffer(#[trigger] m.table[i].fbo[k]),
            ),
        forall|k: int|
            0 <= k < m.stale.len() ==> m.holdings().contains(
                Release::Texture(#[trigger] m.stale[k]),
            ),
        m.holdings().contains(Release::Texture(m.scene.color)),
        m.holdings().contains(Release::Texture(m.scene.velocity)),
        m.holdings().contains(Release::Texture(m.scene.depth)),
{
    let a = resources::all_released(m.table);
    let b = pipeline::textures(m.stale);
    let c = pipeline::textures(seq![m.scene.color, m.scene.velocity, m.scene.depth]);
    let all = a + b + c;
    resources::each_once_keeps_every_object(all);
    assert forall|r: Release| a.contains(r) implies #[trigger] all.contains(r) by {
        let k = choose|k: int| 0 <= k < a.len() && a[k] == r;
        assert(all[k] == r);
    }
    assert forall|i: int, k: int|
        0 <= i < m.table.len() && 0 <= k < m.table[i].tex.len() implies m.holdings().contains(
        Release::Texture(#[trigger] m.table[i].tex[k]),
    ) by {
        let r = Release::Texture(m.table[i].tex[k]);
        assert(resources::released(m.table[i])[k] == r);
        resources::lemma_released_at(m.table, i, r);
        assert(all.contains(r));
    }
    assert forall|i: int, k: int|
        0 <= i < m.table.len() && 0 <= k < m.table[i].fbo.len() implies m.holdings().contains(
        Release::Framebuffer(#[trigger] m.table[i].fbo[k]),
    ) by {
        let r = Release::Framebuffer(m.table[i].fbo[k]);
        assert(resources::released(m.table[i])[m.table[i].tex.len() + k] == r);
        resources::lemma_released_at(m.table, i, r);
        assert(all.contains(r));
    }
    assert forall|k: int| 0 <= k < m.stale.len() implies m.holdings().contains(
        Release::Texture(#[trigger] m.stale[k]),
    ) by {
        assert(all[a.len() + k] == Release::Texture(m.stale[k]));
    }
    let n = (a.len() + b.len()) as int;
    assert(all[n] == Release::Texture(m.scene.color));
    assert(all[n + 1] == Release::Texture(m.scene.velocity));
    assert(all[n + 2] == Release::Texture(m.scene.depth));
}

/// A call that changes a pipeline without resizing it.
pub enum Call {
    BeginFrame,
    Run(IgsrParamsFfi),
    TimerBegin(PassId),
    Poll(Seq<Option<u32>>),
    /// Any of the calls that set up the passes.
    Configure(PassConfig),
    RequestReset,
    SetExternal(Seq<char>, glow::NativeTexture),
    Install(Seq<EntryModel>, SceneTargets),
}

/// The pipeline after one call.
pub open spec fn after_call<P: Pass>(m: PipelineModel<P>, call: Call) -> PipelineModel<P> {
    match call {
        Call::BeginFrame => PipelineModel {
            timers: TimersModel { only: Some(timers::turn(m.timer_frame)), ..m.timers },
            timer_frame: m.timer_frame + 1,
            ..m
        },
        Call::Run(params) => after_frame(m, params),
        Call::TimerBegin(pass) => PipelineModel { timers: m.timers.begun(pass), ..m },
        Call::Poll(results) => PipelineModel { timers: m.timers.polled(results), ..m },
        Call::Configure(cfg) => m.reconfigured(cfg),
        Call::RequestReset => PipelineModel { needs_reset: true, ..m },
        Call::SetExternal(name, tex) => PipelineModel {
            table: resources::with_external(m.table, name, tex),
            stale: m.stale + pipeline::listed(resources::displaced(m.table, name)),
            ..m
        },
        Call::Install(table, scene) => PipelineModel { table, scene, ..m },
    }
}

/// The pipeline after a list of calls.
pub open spec fn after_calls<P: Pass>(m: PipelineModel<P>, calls: Seq<Call>) -> PipelineModel<P>
    decreases calls.len(),
{
    if calls.len() == 0 {
        m
    } else {
        after_call(after_calls(m, calls.drop_last()), calls.last())
    }
}

/// How many of the calls begin a frame.
pub open spec fn frames_begun(calls: Seq<Call>) -> nat
    decreases calls.len(),
{
    if calls.len() == 0 {
        0
    } else {
        frames_begun(calls.drop_last()) + once_if(calls.last() is BeginFrame)
    }
}

proof fn lemma_passes_keep_the_turn<P: Pass>(m: PipelineModel<P>, params: IgsrParamsFfi, k: nat)
    ensures
        m.after_passes(params, k).timers.only == m.timers.only,
        m.after_passes(params, k).timers.supported == m.timers.supported,
    decreases k,
{
    if k > 0 {
        lemma_passes_keep_the_turn(m, params, (k - 1) as nat);
    }
}

proof fn lemma_polls_keep_the_turn(t: TimersModel, results: Seq<Option<u32>>, n: nat)
    ensures
        t.polled_before(results, n).only == t.only,
        t.polled_before(results, n).supported == t.supported,
    decreases n,
{
    if n > 0 {
        lemma_polls_keep_the_turn(t, results, (n - 1) as nat);
    }
}

/// The timed sections take turns: whatever is called in between, once a frame
/// has been begun for the `k`-th time since the pipeline was built or resized,
/// counting from zero, exactly the section whose turn `k` is may be timed. No
/// section ever is where timing is unsupported.
pub proof fn sections_take_turns<P: Pass>(m: PipelineModel<P>, calls: Seq<Call>, p: PassId)
    requires
        m.timer_frame == 0,
    ensures
        after_calls(m, calls).timer_frame == frames_begun(calls),
        after_calls(m, calls).timers.supported == m.timers.supported,
        frames_begun(calls) > 0 ==> after_calls(m, calls).timers.armed(p) == (m.timers.supported
            && p == timers::turn((frames_begun(calls) - 1) as nat)),
        !m.timers.supported ==> !after_calls(m, calls).timers.armed(p),
{
    lemma_turn_after(m, calls);
}

proof fn lemma_turn_after<P: Pass>(m: PipelineModel<P>, calls: Seq<Call>)
    requires
        m.timer_frame == 0,
    ensures
        after_calls(m, calls).timer_frame == frames_begun(calls),
        after_calls(m, calls).timers.supported == m.timers.supported,
        frames_begun(calls) > 0 ==> after_calls(m, calls).timers.only == Some(
            timers::turn((frames_begun(calls) - 1) as nat),
        ),
    decreases calls.len(),
{
    if calls.len() > 0 {
        let before = after_calls(m, calls.drop_last());
        lemma_turn_after(m, calls.drop_last());
        match calls.last() {
            Call::Run(params) => {
                lemma_passes_keep_the_turn(before, params, before.passes.len());
            },
            Call::Poll(results) => {
                lemma_polls_keep_the_turn(before.timers, results, 18);
            },
            _ => {},
        }
    }
}

} // verus!
