//! What a frame of the pipeline consists of.

use vstd::prelude::*;

#[allow(unused_imports)]
use crate::commands::CommandModel;
#[allow(unused_imports)]
use crate::passes::stage::Stage;
#[allow(unused_imports)]
use crate::passes::{Pass, ShaderSet, Variant, ViewModel};
#[allow(unused_imports)]
use crate::pipeline::{PipelineModel, ViewEntryModel};
#[allow(unused_imports)]
use crate::records::IgsrParamsFfi;
#[allow(unused_imports)]
use crate::resources::{AllocationModel, EntryModel, Sizes, TapHandles};
use crate::{laws, passes, pipeline, resources, sources};

verus! {

/// A pass sees the parameters of the frame as they are, the sizes and the
/// sharpness in force, the program of its variant, and the textures that its
/// reads and writes resolve to.
pub proof fn passes_see_the_frame<P: Pass>(
    m: PipelineModel<P>,
    i: int,
    params: IgsrParamsFfi,
    table: Seq<EntryModel>,
    k: int,
)
    ensures
        ({
            let s = m.inputs_of(i, params, table);
            let flow = m.passes[i].flow();
            &&& s.params == params
            &&& s.display_size == m.sizes.display
            &&& s.render_size == m.sizes.render
            &&& s.sharpness == m.cfg.sharpness
            &&& s.variant == m.variant[i]
            &&& m.variant[i] is Compute ==> s.program == m.progs[i].compute
            &&& m.variant[i] is Fragment ==> s.program == m.progs[i].fragment
            &&& s.reads.len() == flow.reads.len()
            &&& s.writes.len() == flow.writes.len()
            &&& 0 <= k < flow.reads.len() ==> match resources::read_of(table, flow.reads[k]) {
                Some(t) => s.reads[k] == t,
                None => s.reads[k] == m.scene.color,
            }
            &&& 0 <= k < flow.writes.len() ==> match resources::write_of(table, flow.writes[k]) {
                Some(w) => s.writes[k] == w.1,
                None => s.writes[k] == m.scene.color,
            }
        }),
{
}

/// `list` begins with `head`.
pub open spec fn begins_with(list: Seq<CommandModel>, head: Seq<CommandModel>) -> bool {
    head.len() <= list.len() && list.take(head.len() as int) == head
}

proof fn lemma_begins(a: Seq<CommandModel>, b: Seq<CommandModel>, c: Seq<CommandModel>)
    requires
        begins_with(b, a),
        begins_with(c, b),
    ensures
        begins_with(c, a),
{
    assert(c.take(a.len() as int) =~= b.take(a.len() as int)) by {
        assert forall|i: int| 0 <= i < a.len() implies c[i] == b[i] by {
            assert(c.take(b.len() as int)[i] == b[i]);
        }
    }
}

/// What is recorded stays recorded: a frame begins with what its first passes
/// recorded.
pub proof fn frames_grow<P: Pass>(m: PipelineModel<P>, params: IgsrParamsFfi, k: nat, n: nat)
    requires
        k <= n,
    ensures
        begins_with(m.after_passes(params, n).commands, m.after_passes(params, k).commands),
    decreases n,
{
    let b = m.after_passes(params, n).commands;
    if k == n {
        assert(b.take(b.len() as int) =~= b);
    } else {
        let a = m.after_passes(params, (n - 1) as nat).commands;
        frames_grow(m, params, k, (n - 1) as nat);
        assert(b.take(a.len() as int) =~= a);
        lemma_begins(m.after_passes(params, k).commands, a, b);
    }
}

/// `list` holds `work` from `at` on, between making `program` current and
/// letting go of it.
pub open spec fn runs_at(
    list: Seq<CommandModel>,
    program: Option<glow::NativeProgram>,
    work: Seq<CommandModel>,
    at: int,
) -> bool {
    &&& 1 <= at
    &&& at + work.len() < list.len()
    &&& list[at - 1] == CommandModel::UseProgram(program)
    &&& list.subrange(at, at + work.len()) == work
    &&& list[at + work.len()] == CommandModel::UseProgram(None)
}

/// Every pass that is enabled has its work in the frame, with its own program
/// current, behind everything that the passes before it recorded and before
/// everything that the passes behind it record. A pass that is not enabled
/// leaves no trace.
pub proof fn enabled_passes_are_recorded<P: Pass>(
    m: PipelineModel<P>,
    params: IgsrParamsFfi,
    i: int,
) -> (at: int)
    requires
        0 <= i < m.passes.len(),
    ensures
        m.enabled[i] ==> {
            let before = m.after_passes(params, i as nat);
            let s = m.inputs_of(i, params, before.table);
            let work = m.passes[i].work(s);
            &&& runs_at(m.frame_end(params).commands, s.program, work, at)
            &&& before.commands.len() < at
            &&& at + work.len() < m.after_passes(params, (i + 1) as nat).commands.len()
        },
        !m.enabled[i] ==> m.after_passes(params, (i + 1) as nat) == m.after_passes(
            params,
            i as nat,
        ),
{
    if m.enabled[i] {
        let st = m.after_passes(params, i as nat);
        let s = m.inputs_of(i, params, st.table);
        let work = m.passes[i].work(s);
        let section = pipeline::section_of(m.passes[i].label());
        let head = st.commands + pipeline::bindings(
            m.variant[i],
            st.table,
            m.passes[i].flow().writes,
            m.sizes,
        ) + pipeline::begin_commands(st.timers, section);
        let at = (head.len() + 1) as int;
        let mid = m.after_passes(params, (i + 1) as nat).commands;
        let tail = pipeline::end_commands(pipeline::timers_begun(st.timers, section), section);
        assert(mid =~= head + seq![CommandModel::UseProgram(s.program)] + work + seq![
            CommandModel::UseProgram(None),
        ] + tail);
        assert(mid.subrange(at, at + work.len()) =~= work);
        assert(runs_at(mid, s.program, work, at));
        let n = m.passes.len();
        frames_grow(m, params, (i + 1) as nat, n);
        let full = m.after_passes(params, n).commands;
        let all = m.frame_end(params).commands;
        assert forall|j: int| 0 <= j < mid.len() implies all[j] == mid[j] by {
            assert(full.take(mid.len() as int)[j] == mid[j]);
            assert(full[j] == mid[j]);
        }
        assert(all.len() >= mid.len());
        assert(all.subrange(at, at + work.len()) =~= work);
        at
    } else {
        0
    }
}

/// A compute pass has each of its writes bound as an image: the `k`-th write
/// to unit `k`, as the tap that a writer gets, in the format it was declared
/// with.
pub proof fn compute_writes_are_bound(table: Seq<EntryModel>, names: Seq<Seq<char>>, sizes: Sizes)
    requires
        resources::entries_wf(table),
        names.len() <= u32::MAX,
        forall|k: int|
            0 <= k < names.len() ==> resources::position(table, #[trigger] names[k]) is Some,
    ensures
        ({
            let b = pipeline::bindings(Variant::Compute, table, names, sizes);
            &&& b.len() == names.len()
            &&& forall|k: int|
                #![trigger names[k]]
                0 <= k < names.len() ==> {
                    let e = table[resources::position(table, names[k])->0];
                    b[k] == CommandModel::BindImage {
                        unit: k as nat,
                        texture: e.tex[e.write_tap() as int],
                        format: e.spec.internal as u32,
                    }
                }
        }),
    decreases names.len(),
{
    if names.len() > 0 {
        let init = names.drop_last();
        assert forall|k: int| 0 <= k < init.len() implies resources::position(
            table,
            #[trigger] init[k],
        ) is Some by {
            assert(init[k] == names[k]);
        }
        compute_writes_are_bound(table, init, sizes);
        let last = names[names.len() - 1];
        resources::position_finds(table, last);
        resources::readers_see_the_write(table, last);
        let b = pipeline::bindings(Variant::Compute, table, names, sizes);
        let c = pipeline::bindings(Variant::Compute, table, init, sizes);
        assert forall|k: int| #![trigger names[k]] 0 <= k < names.len() implies ({
            let e = table[resources::position(table, names[k])->0];
            b[k] == CommandModel::BindImage {
                unit: k as nat,
                texture: e.tex[e.write_tap() as int],
                format: e.spec.internal as u32,
            }
        }) by {
            if k < init.len() {
                assert(init[k] == names[k]);
                assert(b[k] == c[k]);
            }
        }
    }
}

/// A fragment pass draws into the tap of its first write that a writer gets,
/// over the whole resolution that the resource follows.
pub proof fn fragment_write_is_the_target(
    table: Seq<EntryModel>,
    names: Seq<Seq<char>>,
    sizes: Sizes,
)
    requires
        names.len() > 0,
        resources::position(table, names[0]) is Some,
    ensures
        ({
            let b = pipeline::bindings(Variant::Fragment, table, names, sizes);
            let e = table[resources::position(table, names[0])->0];
            &&& b.len() == 1
            &&& b[0] is BindTarget
            &&& b[0]->framebuffer == e.fbo[e.write_tap() as int]
            &&& e.spec.domain is Render ==> (b[0]->BindTarget_width, b[0]->BindTarget_height)
                == sizes.render
            &&& e.spec.domain is Display ==> (b[0]->BindTarget_width, b[0]->BindTarget_height)
                == sizes.display
        }),
{
}

/// Which passes of the default pipeline run: activate with three passes on the
/// compute path alone, the others always, as far as they have a program.
pub proof fn which_passes_run(m: PipelineModel<Stage>)
    requires
        m.wf(),
        passes::stage::is_default(m.passes),
    ensures
        forall|i: int|
            0 <= i < 4 ==> #[trigger] m.enabled[i] == ((m.progs[i].compute is Some
                || m.progs[i].fragment is Some) && (i == 1 ==> m.cfg.three_pass
                && m.cfg.use_compute)),
{
    assert forall|i: int| 0 <= i < 4 implies #[trigger] m.enabled[i] == ((m.progs[i].compute is Some
        || m.progs[i].fragment is Some) && (i == 1 ==> m.cfg.three_pass && m.cfg.use_compute)) by {
        assert(i == 0 || i == 1 || i == 2 || i == 3);
    }
}

/// Whatever the pass, it runs exactly when the configuration enables it and a
/// program of it compiled.
pub proof fn what_runs<P: Pass>(m: PipelineModel<P>, i: int)
    requires
        m.wf(),
        0 <= i < m.passes.len(),
    ensures
        m.enabled[i] == (m.passes[i].runs(m.cfg) && (m.progs[i].compute is Some
            || m.progs[i].fragment is Some)),
{
}

/// The variant that a pass runs on: the preferred one where its program is
/// there, the other one where only that is.
pub proof fn which_variant_runs<P: Pass>(m: PipelineModel<P>, i: int)
    requires
        m.wf(),
        0 <= i < m.passes.len(),
    ensures
        m.progs[i].compute is Some && m.progs[i].fragment is None ==> m.variant[i] is Compute,
        m.progs[i].compute is None ==> m.variant[i] is Fragment,
        m.progs[i].compute is Some && m.progs[i].fragment is Some ==> m.variant[i] is Compute
            == m.cfg.use_compute,
{
}

/// What the four passes read and write. The scene goes into convert and
/// upscale, motion goes from convert over activate to upscale, and only
/// sharpen leaves the frame.
pub proof fn data_flow(list: Seq<Stage>)
    requires
        passes::stage::is_default(list),
    ensures
        list[0].flow().reads == seq!["depth"@, "velocity"@],
        list[0].flow().writes == seq!["data"@],
        list[1].flow().reads == seq!["data"@, "color"@, "luma"@],
        list[1].flow().writes == seq!["data"@, "luma"@],
        list[2].flow().reads == seq!["color"@, "data"@, "history"@],
        list[2].flow().writes == seq!["history"@, "scene_out"@],
        list[3].flow().reads == seq!["history"@],
        list[3].flow().writes == seq!["sharp"@],
        list[0].flow().final_output is None,
        list[1].flow().final_output is None,
        list[2].flow().final_output is None,
        list[3].flow().final_output == Some("sharp"@),
{
}

/// What is created for the default pipeline at any sizes: placeholders of one
/// pixel for the scene, pairs at render size for motion and luma, a pair at
/// display size for the history, and single textures at display size for the
/// rest.
pub proof fn allocations_follow_the_sizes(list: Seq<Stage>, sizes: Sizes)
    requires
        passes::stage::is_default(list),
    ensures
        ({
            let plan = resources::plan_of(pipeline::declarations(list), sizes);
            &&& plan.len() == 8
            &&& plan[0].spec.name == "depth"@ && plan[1].spec.name == "velocity"@
                && plan[2].spec.name == "color"@ && plan[3].spec.name == "data"@
                && plan[4].spec.name == "luma"@ && plan[5].spec.name == "history"@
                && plan[6].spec.name == "scene_out"@ && plan[7].spec.name == "sharp"@
            &&& forall|i: int|
                0 <= i < 3 ==> (#[trigger] plan[i]).width == 1 && plan[i].height == 1
                    && plan[i].taps == 1
            &&& forall|i: int|
                3 <= i < 5 ==> ((#[trigger] plan[i]).width, plan[i].height) == sizes.render
                    && plan[i].taps == 2
            &&& forall|i: int|
                5 <= i < 8 ==> ((#[trigger] plan[i]).width, plan[i].height) == sizes.display
            &&& plan[5].taps == 2 && plan[6].taps == 1 && plan[7].taps == 1
        }),
{
    laws::default_declarations(list);
    let plan = resources::plan_of(pipeline::declarations(list), sizes);
    assert forall|i: int| 0 <= i < 8 implies #[trigger] plan[i] == resources::allocation_of(
        laws::default_specs()[i],
        sizes,
    ) by {}
    assert forall|i: int| 0 <= i < 3 implies (#[trigger] plan[i]).width == 1 && plan[i].height == 1
        && plan[i].taps == 1 by {
        assert(i == 0 || i == 1 || i == 2);
    }
    assert forall|i: int| 3 <= i < 5 implies ((#[trigger] plan[i]).width, plan[i].height)
        == sizes.render && plan[i].taps == 2 by {
        assert(i == 3 || i == 4);
    }
    assert forall|i: int| 5 <= i < 8 implies ((#[trigger] plan[i]).width, plan[i].height)
        == sizes.display by {
        assert(i == 5 || i == 6 || i == 7);
    }
}

/// A declared resource is created at the resolution of its domain with as many
/// textures as it has taps, whatever passes there are; one that comes from
/// outside gets a single pixel.
pub proof fn allocations_follow_the_declaration(
    specs: Seq<resources::SpecModel>,
    sizes: Sizes,
    i: int,
)
    requires
        0 <= i < resources::plan_of(specs, sizes).len(),
    ensures
        ({
            let a = resources::plan_of(specs, sizes)[i];
            &&& specs.contains(a.spec)
            &&& a.spec.kind is External ==> a.taps == 1 && a.width == 1 && a.height == 1
            &&& a.spec.kind is Scratch ==> a.taps == 1
            &&& a.spec.kind is PingPong ==> a.taps == a.spec.kind->taps
            &&& !(a.spec.kind is External) && a.spec.domain is Render ==> (a.width, a.height)
                == sizes.render
            &&& !(a.spec.kind is External) && a.spec.domain is Display ==> (a.width, a.height)
                == sizes.display
        }),
{
    resources::distinct_is_the_union(specs);
    assert(specs.contains(resources::distinct(specs)[i]));
}

/// What starts out black after a resize: every framebuffer of the motion and
/// of the luma pair, and nothing else.
pub proof fn what_is_cleared(t: Seq<EntryModel>, f: glow::NativeFramebuffer)
    requires
        laws::is_default_table(t),
    ensures
        pipeline::cleared(t).contains(f) == (t[3].fbo.contains(f) || t[4].fbo.contains(f)),
        pipeline::cleared(t).len() == 4,
{
    laws::default_positions(t, 3);
    laws::default_positions(t, 4);
    assert(t[3].wf() && t[4].wf());
    assert(t[3].spec == laws::default_specs()[3] && t[4].spec == laws::default_specs()[4]);
    let (a, b) = (t[3].fbo, t[4].fbo);
    let c = pipeline::cleared(t);
    assert(c == a + b);
    if a.contains(f) {
        let k = choose|k: int| 0 <= k < a.len() && a[k] == f;
        assert(c[k] == f);
    }
    if b.contains(f) {
        let k = choose|k: int| 0 <= k < b.len() && b[k] == f;
        assert(c[a.len() + k] == f);
    }
    if c.contains(f) {
        let k = choose|k: int| 0 <= k < c.len() && c[k] == f;
        if k < a.len() {
            assert(a[k] == f);
        } else {
            assert(b[k - a.len()] == f);
        }
    }
}

/// The programs to compile for the default pipeline: the compute body of each
/// pass behind the prelude, where there is one, and the shared vertex shader
/// with the fragment shader of each pass; activate has no fragment shader.
pub proof fn what_is_compiled(list: Seq<Stage>, shaders: ShaderSet, prelude: Option<Seq<char>>)
    requires
        passes::stage::is_default(list),
    ensures
        prelude is None ==> forall|i: int|
            0 <= i < 4 ==> sources::wanted(#[trigger] list[i], shaders, prelude).compute is None,
        prelude is Some ==> {
            &&& sources::wanted(list[0], shaders, prelude).compute == Some(
                prelude->0 + shaders.convert_comp@,
            )
            &&& sources::wanted(list[1], shaders, prelude).compute == Some(
                prelude->0 + shaders.activate_comp@,
            )
            &&& sources::wanted(list[2], shaders, prelude).compute == Some(
                prelude->0 + shaders.upscale_comp@,
            )
            &&& sources::wanted(list[3], shaders, prelude).compute == Some(
                prelude->0 + shaders.sharpen_comp@,
            )
        },
        sources::wanted(list[0], shaders, prelude).fragment == Some(
            (shaders.fullscreen_vert@, shaders.convert_frag@),
        ),
        sources::wanted(list[1], shaders, prelude).fragment is None,
        sources::wanted(list[2], shaders, prelude).fragment == Some(
            (shaders.fullscreen_vert@, shaders.upscale_frag@),
        ),
        sources::wanted(list[3], shaders, prelude).fragment == Some(
            (shaders.fullscreen_vert@, shaders.sharpen_frag@),
        ),
{
}

/// A view whose program compiled is kept with that very program; one whose
/// program did not compile is left out.
pub proof fn compiled_views_keep_their_programs(
    offered: Seq<ViewModel>,
    programs: Seq<Option<glow::NativeProgram>>,
    i: int,
)
    requires
        offered.len() == programs.len(),
        0 <= i < offered.len(),
        forall|j: int, k: int|
            0 <= j < k < offered.len() ==> (#[trigger] offered[j]).label != (
            #[trigger] offered[k]).label,
    ensures
        ({
            let kept = pipeline::compiled_views(offered, programs);
            &&& programs[i] is Some ==> kept.contains(
                ViewEntryModel {
                    label: offered[i].label,
                    source: offered[i].source,
                    program: programs[i]->0,
                },
            )
            &&& forall|k: int|
                0 <= k < kept.len() && (#[trigger] kept[k]).label == offered[i].label
                    ==> programs[i] == Some(kept[k].program) && kept[k].source == offered[i].source
        }),
{
    lemma_compiled(offered, programs, offered.len(), i);
    assert(offered.take(offered.len() as int) =~= offered);
}

proof fn lemma_compiled(
    offered: Seq<ViewModel>,
    programs: Seq<Option<glow::NativeProgram>>,
    n: nat,
    i: int,
)
    requires
        n <= offered.len() == programs.len(),
        0 <= i < offered.len(),
        forall|j: int, k: int|
            0 <= j < k < offered.len() ==> (#[trigger] offered[j]).label != (
            #[trigger] offered[k]).label,
    ensures
        ({
            let kept = pipeline::compiled_views(offered.take(n as int), programs);
            &&& i < n && programs[i] is Some ==> kept.contains(
                ViewEntryModel {
                    label: offered[i].label,
                    source: offered[i].source,
                    program: programs[i]->0,
                },
            )
            &&& forall|k: int|
                0 <= k < kept.len() && (#[trigger] kept[k]).label == offered[i].label
                    ==> programs[i] == Some(kept[k].program) && kept[k].source == offered[i].source
        }),
    decreases n,
{
    if n > 0 {
        let part = offered.take(n as int);
        let less = offered.take(n - 1);
        assert(part.drop_last() =~= less);
        lemma_compiled(offered, programs, (n - 1) as nat, i);
        let kept = pipeline::compiled_views(part, programs);
        let init = pipeline::compiled_views(less, programs);
        assert(part.last() == offered[n - 1]);
        if i < n - 1 {
            assert(offered[i].label != offered[n - 1].label);
        } else if i > n - 1 {
            assert(offered[n - 1].label != offered[i].label);
        }
        if i < n - 1 && programs[i] is Some {
            let v = ViewEntryModel {
                label: offered[i].label,
                source: offered[i].source,
                program: programs[i]->0,
            };
            let k = choose|k: int| 0 <= k < init.len() && init[k] == v;
            assert(kept[k] == v);
        }
        if i == n - 1 && programs[i] is Some {
            assert(kept[init.len() as int].label == offered[i].label);
        }
        assert forall|k: int|
            0 <= k < kept.len() && (#[trigger] kept[k]).label == offered[i].label implies programs[i]
            == Some(kept[k].program) && kept[k].source == offered[i].source by {
            if k < init.len() {
                assert(kept[k] == init[k]);
            }
        }
    }
}

/// The scene is drawn into color, velocity and depth, one texture each, at the
/// render size whatever that is.
pub proof fn the_scene_has_the_render_size(width: u32, height: u32)
    ensures
        ({
            let t = pipeline::scene_textures(width, height);
            &&& t.len() == 3
            &&& t[0].spec.name == "color"@ && t[1].spec.name == "velocity"@ && t[2].spec.name
                == "depth"@
            &&& forall|i: int|
                0 <= i < 3 ==> (#[trigger] t[i]).width == width && t[i].height == height
                    && t[i].taps == 1
        }),
{
}

/// What was created for a plan is what the table holds, entry by entry, and
/// readers start at the first tap.
pub proof fn what_was_created_is_installed(
    plan: Seq<AllocationModel>,
    handles: Seq<TapHandles>,
    i: int,
)
    requires
        0 <= i < plan.len(),
    ensures
        ({
            let e = resources::installed(plan, handles)[i];
            &&& resources::installed(plan, handles).len() == plan.len()
            &&& e.spec == plan[i].spec
            &&& e.tex == handles[i].tex@
            &&& e.fbo == handles[i].fbo@
            &&& e.read == 0
            &&& e.owned
        }),
{
}

/// Readers and writers of a name go to the first resource of that name: readers
/// to its current tap, a writer to the tap behind that, or to the first one
/// behind the last.
pub proof fn readers_and_writers_of_a_name(entries: Seq<EntryModel>, name: Seq<char>, i: int)
    requires
        resources::entries_wf(entries),
        0 <= i < entries.len(),
        entries[i].spec.name == name,
        forall|j: int| 0 <= j < i ==> (#[trigger] entries[j]).spec.name != name,
    ensures
        ({
            let e = entries[i];
            let n = e.tex.len();
            &&& resources::read_of(entries, name) == Some(e.tex[e.read as int])
            &&& e.spec.kind is PingPong && e.read + 1 < n ==> resources::write_of(entries, name)
                == Some((e.read + 1, e.tex[(e.read + 1) as int]))
            &&& e.spec.kind is PingPong && e.read + 1 == n ==> resources::write_of(entries, name)
                == Some((0nat, e.tex[0]))
            &&& !(e.spec.kind is PingPong) ==> resources::write_of(entries, name) == Some(
                (0nat, e.tex[0]),
            )
        }),
{
    resources::position_finds(entries, name);
    let e = entries[i];
    assert(e.wf());
    match resources::position(entries, name) {
        Some(k) => {
            if k < i {
                assert(entries[k].spec.name != name);
            } else if i < k {
                assert(entries[i].spec.name != name);
            }
        },
        None => {
            assert(entries[i].spec.name != name);
        },
    }
    if e.spec.kind is PingPong {
        let n = e.tex.len();
        assert((e.read + 1) % n == if e.read + 1 == n {
            0
        } else {
            e.read + 1
        }) by (nonlinear_arith)
            requires
                e.read < n,
        ;
    }
}

} // verus!
