//! The pipeline: passes, their resources and one frame's work.
//!
//! A frame is a loop over the passes. Each enabled pass has its reads and
//! writes resolved against the resource table, its targets bound, its work
//! recorded, and the resources it wrote flipped. Nothing here knows which
//! pass is stateful: that follows from what a pass declares.

use vstd::prelude::*;

use crate::commands;
use crate::commands::Command;
#[allow(unused_imports)]
use crate::commands::CommandModel;
use crate::laws;
#[allow(unused_imports)]
use crate::laws::Call;
use crate::passes;
#[allow(unused_imports)]
use crate::passes::{
    DebugViewSpec, Inputs, Pass, PassConfig, PassCtx, PassIo, ResourceRef, Variant, ViewModel,
};
use crate::records::IgsrParamsFfi;
use crate::resources;
#[allow(unused_imports)]
use crate::resources::{
    Allocation, AllocationModel, EntryModel, Release, ResourceSpec, ResourceTable, Sizes,
    SpecModel, TapHandles,
};
use crate::single;
use crate::single::Single;
use crate::text;
use crate::timers;
#[allow(unused_imports)]
use crate::timers::{PassId, PassTimers, Pending, TimersModel};

verus! {

/// The programs of a pass; `None` where a variant did not compile.
#[derive(Debug, Clone, Copy)]
pub struct ProgramPair {
    pub compute: Option<glow::NativeProgram>,
    pub fragment: Option<glow::NativeProgram>,
}

/// A view offered by a pass: its label, the resource it displays and the
/// program that visualizes it.
#[derive(Debug, Clone, Copy)]
pub struct ViewEntry {
    pub label: &'static str,
    pub source: &'static str,
    pub program: glow::NativeProgram,
}

/// What a [`ViewEntry`] holds.
pub struct ViewEntryModel {
    pub label: Seq<char>,
    pub source: Seq<char>,
    pub program: glow::NativeProgram,
}

impl View for ViewEntry {
    type V = ViewEntryModel;

    open spec fn view(&self) -> ViewEntryModel {
        ViewEntryModel { label: self.label@, source: self.source@, program: self.program }
    }
}

/// The textures that the scene is drawn into.
#[derive(Debug, Clone, Copy)]
pub struct SceneTargets {
    pub color: glow::NativeTexture,
    pub velocity: glow::NativeTexture,
    pub depth: glow::NativeTexture,
}

/// The program a pass runs on a variant.
pub open spec fn program_of(pair: ProgramPair, variant: Variant) -> Option<glow::NativeProgram> {
    match variant {
        Variant::Compute => pair.compute,
        Variant::Fragment => pair.fragment,
    }
}

/// The variant to run: the preferred one where it compiled, else the other.
pub open spec fn chosen(pair: ProgramPair, use_compute: bool) -> Variant {
    if use_compute {
        if pair.compute is Some {
            Variant::Compute
        } else {
            Variant::Fragment
        }
    } else if pair.fragment is None && pair.compute is Some {
        Variant::Compute
    } else {
        Variant::Fragment
    }
}

/// The offered views whose programs compiled, in order.
pub open spec fn compiled_views(
    offered: Seq<ViewModel>,
    programs: Seq<Option<glow::NativeProgram>>,
) -> Seq<ViewEntryModel>
    decreases offered.len(),
{
    if offered.len() == 0 {
        Seq::empty()
    } else {
        let init = compiled_views(offered.drop_last(), programs);
        match programs[offered.len() - 1] {
            Some(program) => init.push(
                ViewEntryModel {
                    label: offered.last().label,
                    source: offered.last().source,
                    program,
                },
            ),
            None => init,
        }
    }
}

/// What a list of views holds.
pub open spec fn view_entry_models(list: Seq<ViewEntry>) -> Seq<ViewEntryModel> {
    list.map_values(|v: ViewEntry| v@)
}

/// Keeps the offered views whose programs compiled.
pub fn collect_views(
    offered: &Vec<DebugViewSpec>,
    programs: &Vec<Option<glow::NativeProgram>>,
) -> (r: Vec<ViewEntry>)
    requires
        offered@.len() == programs@.len(),
    ensures
        view_entry_models(r@) == compiled_views(passes::view_models(offered@), programs@),
{
    let mut out: Vec<ViewEntry> = Vec::new();
    let ghost models = passes::view_models(offered@);
    assert(view_entry_models(out@) =~= compiled_views(models.take(0), programs@));
    for i in 0..offered.len()
        invariant
            offered@.len() == programs@.len(),
            models == passes::view_models(offered@),
            view_entry_models(out@) == compiled_views(models.take(i as int), programs@),
    {
        proof {
            let t = models.take(i + 1);
            assert(t.drop_last() =~= models.take(i as int));
            assert(t.last() == offered@[i as int]@);
        }
        if let Some(program) = programs[i] {
            let ghost before = out@;
            let v = ViewEntry { label: offered[i].label, source: offered[i].source, program };
            out.push(v);
            assert(view_entry_models(out@) =~= view_entry_models(before).push(v@));
        }
    }
    assert(models.take(offered@.len() as int) =~= models);
    out
}

/// All declarations of a list of passes, in pass order.
pub open spec fn declarations<P: Pass>(list: Seq<P>) -> Seq<SpecModel>
    decreases list.len(),
{
    if list.len() == 0 {
        Seq::empty()
    } else {
        declarations(list.drop_last()) + list.last().declared()
    }
}

fn declared_by<P: Pass>(list: &Vec<P>) -> (r: Vec<ResourceSpec>)
    ensures
        resources::spec_models(r@) == declarations(list@),
{
    let mut out: Vec<ResourceSpec> = Vec::new();
    assert(resources::spec_models(out@) =~= declarations(list@.take(0)));
    for i in 0..list.len()
        invariant
            resources::spec_models(out@) == declarations(list@.take(i as int)),
    {
        let mut more = list[i].resources();
        let ghost before = out@;
        let ghost added = more@;
        out.append(&mut more);
        proof {
            let t = list@.take(i + 1);
            assert(t.drop_last() =~= list@.take(i as int));
            assert(t.last() == list@[i as int]);
            assert(resources::spec_models(out@) =~= resources::spec_models(before)
                + resources::spec_models(added));
        }
    }
    assert(list@.take(list@.len() as int) =~= list@);
    out
}

/// Textures to delete.
pub open spec fn textures(list: Seq<glow::NativeTexture>) -> Seq<Release> {
    list.map_values(|t: glow::NativeTexture| Release::Texture(t))
}

/// The state of a pipeline.
pub struct PipelineModel<P> {
    pub passes: Seq<P>,
    pub table: Seq<EntryModel>,
    /// Textures of the table's own that were pushed out of it.
    pub stale: Seq<glow::NativeTexture>,
    pub progs: Seq<ProgramPair>,
    pub enabled: Seq<bool>,
    pub variant: Seq<Variant>,
    pub views: Seq<ViewEntryModel>,
    pub timers: TimersModel,
    pub sizes: Sizes,
    pub cfg: PassConfig,
    pub needs_reset: bool,
    pub scene_fbo: glow::NativeFramebuffer,
    pub scene: SceneTargets,
    pub blit_prog: glow::NativeProgram,
    pub timer_supported: bool,
    pub timer_frame: nat,
}

impl<P: Pass> PipelineModel<P> {
    /// One entry per pass in the per-pass lists, variants resolved for the
    /// configuration, well-formed timers and resources.
    pub open spec fn wf(self) -> bool {
        &&& self.progs.len() == self.passes.len()
        &&& self.enabled == self.resolved_enabled()
        &&& self.variant == self.resolved_variant()
        &&& self.timers.wf()
        &&& resources::entries_wf(self.table)
        &&& single::is_unit(self.cfg.sharpness)
        &&& self.passes.len() * 2 <= usize::MAX
    }

    /// Which passes run: those that the configuration enables and that have
    /// a program.
    pub open spec fn resolved_enabled(self) -> Seq<bool> {
        Seq::new(
            self.passes.len(),
            |i: int|
                self.passes[i].runs(self.cfg) && (self.progs[i].compute is Some
                    || self.progs[i].fragment is Some),
        )
    }

    /// The variant each pass runs on.
    pub open spec fn resolved_variant(self) -> Seq<Variant> {
        Seq::new(self.passes.len(), |i: int| chosen(self.progs[i], self.cfg.use_compute))
    }

    /// Every GL object that the pipeline answers for: what the table holds, what
    /// was pushed out of it, and the scene's textures, each once.
    pub open spec fn holdings(self) -> Seq<Release> {
        resources::each_once(
            resources::all_released(self.table) + textures(self.stale) + textures(
                seq![self.scene.color, self.scene.velocity, self.scene.depth],
            ),
        )
    }

    /// The same pipeline under another configuration.
    pub open spec fn reconfigured(self, cfg: PassConfig) -> PipelineModel<P> {
        let m = PipelineModel { cfg, ..self };
        PipelineModel { enabled: m.resolved_enabled(), variant: m.resolved_variant(), ..m }
    }

    /// Every pass that runs can have its target bound and its groups counted.
    pub open spec fn ready(self) -> bool {
        forall|i: int|
            #![trigger self.enabled[i]]
            0 <= i < self.passes.len() && self.enabled[i] ==> {
                &&& passes::dispatchable(self.sizes.render)
                &&& passes::dispatchable(self.sizes.display)
                &&& self.variant[i] == Variant::Fragment && self.passes[i].flow().writes.len() > 0
                    ==> resources::position(self.table, self.passes[i].flow().writes[0]) is Some
            }
    }
}

/// What a frame has produced so far.
#[verifier::ext_equal]
pub struct RunState {
    pub table: Seq<EntryModel>,
    pub timers: TimersModel,
    pub commands: Seq<CommandModel>,
    pub output: glow::NativeTexture,
}

/// The textures that readers of `names` see; `fallback` where there is none.
pub open spec fn resolved_reads(
    table: Seq<EntryModel>,
    names: Seq<Seq<char>>,
    fallback: glow::NativeTexture,
) -> Seq<glow::NativeTexture> {
    names.map_values(
        |n: Seq<char>|
            match resources::read_of(table, n) {
                Some(t) => t,
                None => fallback,
            },
    )
}

/// The textures that writers of `names` get; `fallback` where there is none.
pub open spec fn resolved_writes(
    table: Seq<EntryModel>,
    names: Seq<Seq<char>>,
    fallback: glow::NativeTexture,
) -> Seq<glow::NativeTexture> {
    names.map_values(
        |n: Seq<char>|
            match resources::write_of(table, n) {
                Some(w) => w.1,
                None => fallback,
            },
    )
}

/// Each write bound as the image unit of its index, in the format it was
/// declared with.
pub open spec fn image_bindings(table: Seq<EntryModel>, names: Seq<Seq<char>>) -> Seq<CommandModel>
    decreases names.len(),
{
    if names.len() == 0 {
        Seq::empty()
    } else {
        let init = image_bindings(table, names.drop_last());
        match (resources::write_of(table, names.last()), resources::position(table, names.last())) {
            (Some(w), Some(i)) => init.push(
                CommandModel::BindImage {
                    unit: ((names.len() - 1) as u32) as nat,
                    texture: w.1,
                    format: table[i].spec.internal as u32,
                },
            ),
            _ => init,
        }
    }
}

/// The tap of the first write bound as the render target, over the whole
/// resolution of its domain.
pub open spec fn target_binding(
    table: Seq<EntryModel>,
    names: Seq<Seq<char>>,
    sizes: Sizes,
) -> Seq<CommandModel> {
    if names.len() == 0 {
        Seq::empty()
    } else {
        match resources::position(table, names[0]) {
            Some(i) => seq![
                CommandModel::BindTarget {
                    framebuffer: table[i].fbo[table[i].write_tap() as int],
                    width: sizes.of(table[i].spec.domain).0,
                    height: sizes.of(table[i].spec.domain).1,
                },
            ],
            None => Seq::empty(),
        }
    }
}

/// What is bound for a pass before it runs.
pub open spec fn bindings(
    variant: Variant,
    table: Seq<EntryModel>,
    names: Seq<Seq<char>>,
    sizes: Sizes,
) -> Seq<CommandModel> {
    match variant {
        Variant::Compute => image_bindings(table, names),
        Variant::Fragment => target_binding(table, names, sizes),
    }
}

/// The timed section that a pass belongs to.
pub open spec fn section_of(label: Seq<char>) -> Option<PassId> {
    if label == "convert"@ {
        Some(PassId::Convert)
    } else if label == "activate"@ {
        Some(PassId::Activate)
    } else if label == "upscale"@ {
        Some(PassId::Upscale)
    } else if label == "sharpen"@ {
        Some(PassId::Sharp)
    } else {
        None
    }
}

/// The timers once an optional section has begun.
pub open spec fn timers_begun(t: TimersModel, section: Option<PassId>) -> TimersModel {
    match section {
        Some(p) => t.begun(p),
        None => t,
    }
}

/// What beginning an optional section records.
pub open spec fn begin_commands(t: TimersModel, section: Option<PassId>) -> Seq<CommandModel> {
    match section {
        Some(p) => match t.begun_query(p) {
            Some(q) => seq![CommandModel::BeginQuery(q)],
            None => Seq::empty(),
        },
        None => Seq::empty(),
    }
}

/// What ending an optional section records.
pub open spec fn end_commands(t: TimersModel, section: Option<PassId>) -> Seq<CommandModel> {
    match section {
        Some(p) => if t.armed(p) {
            seq![CommandModel::EndQuery]
        } else {
            Seq::empty()
        },
        None => Seq::empty(),
    }
}

/// An optional texture as a list.
pub open spec fn listed(t: Option<glow::NativeTexture>) -> Seq<glow::NativeTexture> {
    match t {
        Some(t) => seq![t],
        None => Seq::empty(),
    }
}

/// Distinguishes the variants of a pass in the location cache.
pub open spec fn variant_index(variant: Variant) -> nat {
    match variant {
        Variant::Compute => 0,
        Variant::Fragment => 1,
    }
}

impl<P: Pass> PipelineModel<P> {
    /// What pass `i` sees when the table holds `table`.
    pub open spec fn inputs_of(self, i: int, params: IgsrParamsFfi, table: Seq<EntryModel>) -> Inputs {
        let flow = self.passes[i].flow();
        Inputs {
            params,
            reads: resolved_reads(table, flow.reads, self.scene.color),
            writes: resolved_writes(table, flow.writes, self.scene.color),
            display_size: self.sizes.display,
            render_size: self.sizes.render,
            sharpness: self.cfg.sharpness,
            program: program_of(self.progs[i], self.variant[i]),
            key: (i * 2 + variant_index(self.variant[i])) as nat,
            variant: self.variant[i],
        }
    }

    /// The frame once pass `i` has run.
    pub open spec fn pass_run(self, i: int, params: IgsrParamsFfi, st: RunState) -> RunState {
        let pass = self.passes[i];
        let flow = pass.flow();
        let section = section_of(pass.label());
        let inputs = self.inputs_of(i, params, st.table);
        let timing = timers_begun(st.timers, section);
        let table = resources::flip_all(st.table, flow.writes);
        RunState {
            table,
            timers: timing,
            commands: st.commands + bindings(
                self.variant[i],
                st.table,
                flow.writes,
                self.sizes,
            ) + begin_commands(st.timers, section) + seq![
                CommandModel::UseProgram(inputs.program),
            ] + pass.work(inputs) + seq![CommandModel::UseProgram(None)] + end_commands(
                timing,
                section,
            ),
            output: match flow.final_output {
                Some(n) => match resources::read_of(table, n) {
                    Some(t) => t,
                    None => st.output,
                },
                None => st.output,
            },
        }
    }

    /// The textures that registering the scene pushes out of the table.
    pub open spec fn scene_displaces(self) -> Seq<glow::NativeTexture> {
        let t1 = resources::with_external(self.table, "color"@, self.scene.color);
        let t2 = resources::with_external(t1, "velocity"@, self.scene.velocity);
        listed(resources::displaced(self.table, "color"@)) + listed(
            resources::displaced(t1, "velocity"@),
        ) + listed(resources::displaced(t2, "depth"@))
    }

    /// The frame before any pass has run: the scene is registered, and it is
    /// the output unless a pass produces one.
    pub open spec fn frame_start(self) -> RunState {
        RunState {
            table: resources::with_external(
                resources::with_external(
                    resources::with_external(self.table, "color"@, self.scene.color),
                    "velocity"@,
                    self.scene.velocity,
                ),
                "depth"@,
                self.scene.depth,
            ),
            timers: self.timers.begun(PassId::Total),
            commands: begin_commands(self.timers, Some(PassId::Total)),
            output: self.scene.color,
        }
    }

    /// The frame once the first `k` passes have had their turn.
    pub open spec fn after_passes(self, params: IgsrParamsFfi, k: nat) -> RunState
        decreases k,
    {
        if k == 0 {
            self.frame_start()
        } else {
            let st = self.after_passes(params, (k - 1) as nat);
            if self.enabled[k - 1] {
                self.pass_run(k - 1, params, st)
            } else {
                st
            }
        }
    }

    /// The whole frame.
    pub open spec fn frame_end(self, params: IgsrParamsFfi) -> RunState {
        let st = self.after_passes(params, self.passes.len());
        RunState { commands: st.commands + end_commands(st.timers, Some(PassId::Total)), ..st }
    }
}

/// One frame's work and the texture it ends up in.
#[derive(Debug)]
pub struct Frame {
    pub commands: Vec<Command>,
    pub output: glow::NativeTexture,
}

/// The pipeline.
#[derive(Debug)]
pub struct Pipeline<P> {
    passes: Vec<P>,
    table: ResourceTable,
    stale: Vec<glow::NativeTexture>,
    progs: Vec<ProgramPair>,
    enabled: Vec<bool>,
    variant: Vec<Variant>,
    views: Vec<ViewEntry>,
    timers: PassTimers,
    sizes: Sizes,
    cfg: PassConfig,
    /// The next frame starts over, as after a camera cut.
    pub needs_reset: bool,
    scene_fbo: glow::NativeFramebuffer,
    scene: SceneTargets,
    blit_prog: glow::NativeProgram,
    timer_supported: bool,
    timer_frame: u64,
}

impl<P> View for Pipeline<P> {
    type V = PipelineModel<P>;

    closed spec fn view(&self) -> PipelineModel<P> {
        PipelineModel {
            passes: self.passes@,
            table: self.table@,
            stale: self.stale@,
            progs: self.progs@,
            enabled: self.enabled@,
            variant: self.variant@,
            views: view_entry_models(self.views@),
            timers: self.timers@,
            sizes: self.sizes,
            cfg: self.cfg,
            needs_reset: self.needs_reset,
            scene_fbo: self.scene_fbo,
            scene: self.scene,
            blit_prog: self.blit_prog,
            timer_supported: self.timer_supported,
            timer_frame: self.timer_frame as nat,
        }
    }
}

/// The section that a pass belongs to.
fn section(label: &str) -> (r: Option<PassId>)
    ensures
        r == section_of(label@),
{
    if text::same(label, "convert") {
        Some(PassId::Convert)
    } else if text::same(label, "activate") {
        Some(PassId::Activate)
    } else if text::same(label, "upscale") {
        Some(PassId::Upscale)
    } else if text::same(label, "sharpen") {
        Some(PassId::Sharp)
    } else {
        None
    }
}

/// What runs depends on the passes, their programs and the configuration.
proof fn lemma_resolution_depends<P: Pass>(a: PipelineModel<P>, b: PipelineModel<P>)
    requires
        a.passes == b.passes,
        a.progs == b.progs,
        a.cfg == b.cfg,
    ensures
        a.resolved_enabled() == b.resolved_enabled(),
        a.resolved_variant() == b.resolved_variant(),
{
    assert(a.resolved_enabled() =~= b.resolved_enabled());
    assert(a.resolved_variant() =~= b.resolved_variant());
}

proof fn lemma_begun_keeps(t: TimersModel, p: PassId)
    requires
        t.wf(),
    ensures
        t.begun(p).wf(),
        t.begun(p).supported == t.supported,
        t.begun(p).only == t.only,
{
}

/// Appends to a list and to what it does.
fn record(out: &mut Vec<Command>, c: Command)
    ensures
        commands::command_models(final(out)@) == commands::command_models(old(out)@).push(c@),
{
    proof {
        commands::pushing_a_command(out@, c);
    }
    out.push(c);
}

/// Binds the writes of a compute pass.
fn bind_images(table: &ResourceTable, names: &'static [ResourceRef], out: &mut Vec<Command>)
    requires
        resources::entries_wf(table@),
    ensures
        commands::command_models(final(out)@) == commands::command_models(old(out)@)
            + image_bindings(table@, text::str_views(names@)),
{
    let ghost views = text::str_views(names@);
    let ghost start = commands::command_models(out@);
    assert(start + image_bindings(table@, views.take(0)) =~= start);
    for i in 0..names.len()
        invariant
            resources::entries_wf(table@),
            views == text::str_views(names@),
            commands::command_models(out@) == start + image_bindings(table@, views.take(i as int)),
    {
        proof {
            let t = views.take(i + 1);
            assert(t.drop_last() =~= views.take(i as int));
            assert(t.last() == names@[i as int]@);
        }
        let write = table.write_tex(names[i]);
        if let Some((_, texture)) = write {
            if let Some(at) = table.res_idx(names[i]) {
                let format = table.entry(at).spec.internal as u32;
                record(out, Command::BindImage { unit: i as u32, texture, format });
            }
        }
        assert(commands::command_models(out@) =~= start + image_bindings(table@, views.take(i + 1)));
    }
    assert(views.take(names@.len() as int) =~= views);
}

/// Binds the target of a fragment pass.
fn bind_target(
    table: &ResourceTable,
    names: &'static [ResourceRef],
    sizes: Sizes,
    out: &mut Vec<Command>,
)
    requires
        resources::entries_wf(table@),
        names@.len() > 0 ==> resources::position(table@, names@[0]@) is Some,
    ensures
        commands::command_models(final(out)@) == commands::command_models(old(out)@)
            + target_binding(table@, text::str_views(names@), sizes),
{
    if names.len() > 0 {
        if let Some(at) = table.res_idx(names[0]) {
            let e = table.entry(at);
            assert(table@[at as int].wf());
            let tap = resources::write_tap(e);
            let (width, height) = sizes.dims(e.spec.domain);
            record(out, Command::BindTarget { framebuffer: e.fbo[tap], width, height });
        }
    }
    assert(commands::command_models(out@) =~= commands::command_models(old(out)@) + target_binding(
        table@,
        text::str_views(names@),
        sizes,
    ));
}

/// The textures that readers of `names` see.
fn resolve_reads(
    table: &ResourceTable,
    names: &'static [ResourceRef],
    fallback: glow::NativeTexture,
) -> (r: Vec<glow::NativeTexture>)
    ensures
        r@ == resolved_reads(table@, text::str_views(names@), fallback),
{
    let mut out: Vec<glow::NativeTexture> = Vec::new();
    for i in 0..names.len()
        invariant
            out@.len() == i,
            forall|k: int|
                0 <= k < i ==> #[trigger] out@[k] == resolved_reads(
                    table@,
                    text::str_views(names@),
                    fallback,
                )[k],
    {
        match table.read_tex(names[i]) {
            Some(t) => out.push(t),
            None => out.push(fallback),
        }
    }
    assert(out@ =~= resolved_reads(table@, text::str_views(names@), fallback));
    out
}

/// The textures that writers of `names` get.
fn resolve_writes(
    table: &ResourceTable,
    names: &'static [ResourceRef],
    fallback: glow::NativeTexture,
) -> (r: Vec<glow::NativeTexture>)
    requires
        resources::entries_wf(table@),
    ensures
        r@ == resolved_writes(table@, text::str_views(names@), fallback),
{
    let mut out: Vec<glow::NativeTexture> = Vec::new();
    for i in 0..names.len()
        invariant
            resources::entries_wf(table@),
            out@.len() == i,
            forall|k: int|
                0 <= k < i ==> #[trigger] out@[k] == resolved_writes(
                    table@,
                    text::str_views(names@),
                    fallback,
                )[k],
    {
        match table.write_tex(names[i]) {
            Some((_, t)) => out.push(t),
            None => out.push(fallback),
        }
    }
    assert(out@ =~= resolved_writes(table@, text::str_views(names@), fallback));
    out
}

/// Starts an optional section.
fn begin_section(t: &mut PassTimers, section: Option<PassId>, out: &mut Vec<Command>)
    requires
        old(t)@.wf(),
    ensures
        final(t)@ == timers_begun(old(t)@, section),
        final(t)@.wf(),
        commands::command_models(final(out)@) == commands::command_models(old(out)@)
            + begin_commands(old(t)@, section),
{
    if let Some(p) = section {
        if let Some(q) = t.begin(p) {
            record(out, Command::BeginQuery(q));
        }
    }
    assert(commands::command_models(out@) =~= commands::command_models(old(out)@) + begin_commands(
        old(t)@,
        section,
    ));
}

/// Ends an optional section.
fn end_section(t: &PassTimers, section: Option<PassId>, out: &mut Vec<Command>)
    ensures
        commands::command_models(final(out)@) == commands::command_models(old(out)@)
            + end_commands(t@, section),
{
    if let Some(p) = section {
        if t.end(p) {
            record(out, Command::EndQuery);
        }
    }
    assert(commands::command_models(out@) =~= commands::command_models(old(out)@) + end_commands(
        t@,
        section,
    ));
}

/// Flips everything a pass wrote.
fn flip_writes(table: &mut ResourceTable, names: &'static [ResourceRef])
    requires
        resources::entries_wf(old(table)@),
    ensures
        final(table)@ == resources::flip_all(old(table)@, text::str_views(names@)),
        resources::entries_wf(final(table)@),
{
    let ghost views = text::str_views(names@);
    for i in 0..names.len()
        invariant
            views == text::str_views(names@),
            resources::entries_wf(table@),
            table@ == resources::flip_all(old(table)@, views.take(i as int)),
    {
        proof {
            let t = views.take(i + 1);
            assert(t.drop_last() =~= views.take(i as int));
            assert(t.last() == names@[i as int]@);
        }
        table.flip(names[i]);
    }
    assert(views.take(names@.len() as int) =~= views);
}

impl<P: Pass> Pipeline<P> {
    /// One pass of a frame.
    fn run_pass(&mut self, i: usize, params: &IgsrParamsFfi, frame: &mut Frame)
        requires
            old(self)@.wf(),
            i < old(self)@.passes.len(),
            passes::dispatchable(old(self)@.sizes.render),
            passes::dispatchable(old(self)@.sizes.display),
            old(self)@.variant[i as int] == Variant::Fragment
                && old(self)@.passes[i as int].flow().writes.len() > 0 ==> resources::position(
                old(self)@.table,
                old(self)@.passes[i as int].flow().writes[0],
            ) is Some,
        ensures
            ({
                let st = old(self)@.pass_run(
                    i as int,
                    *params,
                    RunState {
                        table: old(self)@.table,
                        timers: old(self)@.timers,
                        commands: commands::command_models(old(frame).commands@),
                        output: old(frame).output,
                    },
                );
                &&& final(self)@ == (PipelineModel {
                    table: st.table,
                    timers: st.timers,
                    ..old(self)@
                })
                &&& commands::command_models(final(frame).commands@) == st.commands
                &&& final(frame).output == st.output
            }),
    {
        let ghost m = self@;
        let ghost names = self@.passes[i as int].flow().writes;
        let io: PassIo = self.passes[i].io();
        let variant = self.variant[i];
        let pair = self.progs[i];
        let (prog, idx): (Option<glow::NativeProgram>, usize) = match variant {
            Variant::Compute => (pair.compute, 0),
            Variant::Fragment => (pair.fragment, 1),
        };
        assert(text::str_views(io.writes@) == names);
        let reads = resolve_reads(&self.table, io.reads, self.scene.color);
        let writes = resolve_writes(&self.table, io.writes, self.scene.color);
        match variant {
            Variant::Compute => bind_images(&self.table, io.writes, &mut frame.commands),
            Variant::Fragment => {
                assert(io.writes@.len() > 0 ==> names[0] == io.writes@[0]@);
                bind_target(&self.table, io.writes, self.sizes, &mut frame.commands)
            },
        }
        let timed = section(self.passes[i].name());
        begin_section(&mut self.timers, timed, &mut frame.commands);
        record(&mut frame.commands, Command::UseProgram(prog));
        let ghost before = commands::command_models(frame.commands@);
        let mut ctx = PassCtx::new(*params);
        ctx.set_active(prog, i * 2 + idx, variant);
        ctx.sharpness = self.cfg.sharpness;
        ctx.reads = reads;
        ctx.writes = writes;
        ctx.display_size = self.sizes.display;
        ctx.render_size = self.sizes.render;
        assert(ctx.inputs() == m.inputs_of(i as int, *params, m.table));
        self.passes[i].dispatch(&mut ctx);
        let mut work = ctx.commands;
        let ghost recorded = work@;
        let ghost list = frame.commands@;
        frame.commands.append(&mut work);
        proof {
            assert(commands::command_models(recorded) =~= self@.passes[i as int].work(
                m.inputs_of(i as int, *params, m.table),
            ));
            assert(commands::command_models(frame.commands@) =~= before + commands::command_models(
                recorded,
            ));
        }
        record(&mut frame.commands, Command::UseProgram(None));
        end_section(&self.timers, timed, &mut frame.commands);
        flip_writes(&mut self.table, io.writes);
        if let Some(name) = io.final_output {
            if let Some(t) = self.table.read_tex(name) {
                frame.output = t;
            }
        }
        proof {
            let st = m.pass_run(
                i as int,
                *params,
                RunState {
                    table: m.table,
                    timers: m.timers,
                    commands: commands::command_models(old(frame).commands@),
                    output: old(frame).output,
                },
            );
            assert(commands::command_models(frame.commands@) =~= st.commands);
        }
    }

    /// Registers a texture, and keeps what it pushes out for the next resize.
    fn register(&mut self, name: &str, tex: glow::NativeTexture)
        ensures
            final(self)@ == (PipelineModel {
                table: resources::with_external(old(self)@.table, name@, tex),
                stale: old(self)@.stale + listed(resources::displaced(old(self)@.table, name@)),
                ..old(self)@
            }),
    {
        if let Some(t) = self.table.set_external(name, tex) {
            self.stale.push(t);
        }
        assert(self.stale@ =~= old(self)@.stale + listed(
            resources::displaced(old(self)@.table, name@),
        ));
    }

    /// Records the whole pipeline for one frame. The output is what the last
    /// pass with a final output left, or the scene when there is none.
    pub fn run(&mut self, params: &IgsrParamsFfi) -> (r: Frame)
        requires
            old(self)@.wf(),
            old(self)@.ready(),
        ensures
            commands::command_models(r.commands@) == old(self)@.frame_end(*params).commands,
            r.output == old(self)@.frame_end(*params).output,
            final(self)@ == (PipelineModel {
                table: old(self)@.frame_end(*params).table,
                stale: old(self)@.stale + old(self)@.scene_displaces(),
                timers: old(self)@.frame_end(*params).timers,
                needs_reset: false,
                ..old(self)@
            }),
            final(self)@.wf(),
            final(self)@ == laws::after_call(old(self)@, Call::Run(*params)),
            final(self)@.ready(),
    {
        let ghost m = self@;
        let scene = self.scene;
        proof {
            resources::external_keeps_the_shape(m.table, "color"@, scene.color);
            let t1 = resources::with_external(m.table, "color"@, scene.color);
            resources::external_keeps_the_shape(t1, "velocity"@, scene.velocity);
            let t2 = resources::with_external(t1, "velocity"@, scene.velocity);
            resources::external_keeps_the_shape(t2, "depth"@, scene.depth);
        }
        self.register("color", scene.color);
        self.register("velocity", scene.velocity);
        self.register("depth", scene.depth);
        let ghost stale = m.stale + m.scene_displaces();
        assert(self.stale@ =~= stale);
        let mut frame = Frame { commands: Vec::new(), output: scene.color };
        assert(commands::command_models(frame.commands@) =~= Seq::<CommandModel>::empty());
        begin_section(&mut self.timers, Some(PassId::Total), &mut frame.commands);
        assert(commands::command_models(frame.commands@) =~= m.frame_start().commands);
        assert(resources::same_names(m.table, self@.table));
        let n: usize = self.passes.len();
        for i in 0..n
            invariant
                n == m.passes.len(),
                m.wf(),
                m.ready(),
                ({
                    let st = m.after_passes(*params, i as nat);
                    &&& self@ == (PipelineModel {
                        table: st.table,
                        timers: st.timers,
                        stale,
                        ..m
                    })
                    &&& commands::command_models(frame.commands@) == st.commands
                    &&& frame.output == st.output
                }),
                resources::same_names(m.table, self@.table),
                resources::entries_wf(self@.table),
                self@.timers.wf(),
        {
            assert(self@.enabled == m.enabled && self@.variant == m.variant);
            if self.enabled[i] {
                let ghost t = self@.table;
                let ghost clock = self@.timers;
                proof {
                    assert(m.enabled[i as int]);
                    let flow = m.passes[i as int].flow();
                    if flow.writes.len() > 0 {
                        resources::position_follows_names(m.table, t, flow.writes[0]);
                    }
                    resources::flips_keep_the_shape(t, flow.writes);
                    match section_of(m.passes[i as int].label()) {
                        Some(p) => lemma_begun_keeps(clock, p),
                        None => {},
                    }
                }
                self.run_pass(i, params, &mut frame);
            }
        }
        end_section(&self.timers, Some(PassId::Total), &mut frame.commands);
        self.needs_reset = false;
        proof {
            assert forall|i: int|
                #![trigger self@.enabled[i]]
                0 <= i < self@.passes.len() && self@.enabled[i] implies {
                &&& passes::dispatchable(self@.sizes.render)
                &&& passes::dispatchable(self@.sizes.display)
                &&& self@.variant[i] == Variant::Fragment && self@.passes[i].flow().writes.len() > 0
                    ==> resources::position(self@.table, self@.passes[i].flow().writes[0]) is Some
            } by {
                assert(m.enabled[i]);
                if self@.passes[i].flow().writes.len() > 0 {
                    resources::position_follows_names(m.table, self@.table, self@.passes[i].flow().writes[0]);
                }
            }
        }
        frame
    }
}

/// Position of the first view called `label`.
pub open spec fn view_position(views: Seq<ViewEntryModel>, label: Seq<char>) -> Option<int>
    decreases views.len(),
{
    if views.len() == 0 {
        None
    } else {
        match view_position(views.drop_last(), label) {
            Some(i) => Some(i),
            None => if views.last().label == label {
                Some(views.len() - 1)
            } else {
                None
            },
        }
    }
}

/// `view_position` finds the first view of the label, if there is one.
pub proof fn view_position_finds(views: Seq<ViewEntryModel>, label: Seq<char>)
    ensures
        match view_position(views, label) {
            Some(i) => {
                &&& 0 <= i < views.len()
                &&& views[i].label == label
                &&& forall|j: int| 0 <= j < i ==> (#[trigger] views[j]).label != label
            },
            None => forall|j: int| 0 <= j < views.len() ==> (#[trigger] views[j]).label != label,
        },
    decreases views.len(),
{
    if views.len() > 0 {
        let init = views.drop_last();
        view_position_finds(init, label);
        assert forall|j: int| 0 <= j < init.len() implies init[j] == views[j] by {}
    }
}

/// One texture of the scene, at render size.
pub open spec fn scene_texture(spec: SpecModel, width: u32, height: u32) -> AllocationModel {
    AllocationModel { spec, taps: 1, width, height }
}

/// The textures of the scene at a render size, in the order of the attachments.
pub open spec fn scene_textures(width: u32, height: u32) -> Seq<AllocationModel> {
    seq![
        scene_texture(passes::convert::color_spec(), width, height),
        scene_texture(passes::convert::velocity_spec(), width, height),
        scene_texture(passes::convert::depth_spec(), width, height),
    ]
}

/// The textures that the scene is drawn into: color, velocity and depth, in
/// the order of the attachments.
pub fn scene_plan(width: u32, height: u32) -> (r: Vec<Allocation>)
    ensures
        resources::allocation_models(r@) == scene_textures(width, height),
        resources::allocation_models(r@) == seq![
            scene_texture(passes::convert::color_spec(), width, height),
            scene_texture(passes::convert::velocity_spec(), width, height),
            scene_texture(passes::convert::depth_spec(), width, height),
        ],
{
    let mut r: Vec<Allocation> = Vec::new();
    r.push(Allocation { spec: passes::convert::color(), taps: 1, width, height });
    r.push(Allocation { spec: passes::convert::velocity(), taps: 1, width, height });
    r.push(Allocation { spec: passes::convert::depth(), taps: 1, width, height });
    assert(resources::allocation_models(r@) =~= seq![
        scene_texture(passes::convert::color_spec(), width, height),
        scene_texture(passes::convert::velocity_spec(), width, height),
        scene_texture(passes::convert::depth_spec(), width, height),
    ]);
    r
}

/// What a resize asks for: objects to delete, then textures to create.
#[derive(Debug)]
pub struct Rebuild {
    pub release: Vec<Release>,
    pub plan: Vec<Allocation>,
}

/// The framebuffers of the resource called `name`.
pub open spec fn framebuffers_of(table: Seq<EntryModel>, name: Seq<char>) -> Seq<
    glow::NativeFramebuffer,
> {
    match resources::position(table, name) {
        Some(i) => table[i].fbo,
        None => Seq::empty(),
    }
}

/// The framebuffers that start out black: those of `data` and `luma`, so that
/// a view of them shows defined memory even while nothing writes them.
pub open spec fn cleared(table: Seq<EntryModel>) -> Seq<glow::NativeFramebuffer> {
    framebuffers_of(table, "data"@) + framebuffers_of(table, "luma"@)
}

/// Appends the framebuffers of the resource called `name`.
fn push_framebuffers(
    table: &ResourceTable,
    name: &str,
    out: &mut Vec<glow::NativeFramebuffer>,
)
    ensures
        final(out)@ == old(out)@ + framebuffers_of(table@, name@),
{
    if let Some(at) = table.res_idx(name) {
        let e = table.entry(at);
        for i in 0..e.fbo.len()
            invariant
                out@ == old(out)@ + e.fbo@.take(i as int),
        {
            out.push(e.fbo[i]);
            assert(out@ =~= old(out)@ + e.fbo@.take(i + 1));
        }
        assert(e.fbo@.take(e.fbo@.len() as int) =~= e.fbo@);
    }
    assert(out@ =~= old(out)@ + framebuffers_of(table@, name@));
}

impl<P: Pass> Pipeline<P> {
    /// A pipeline over compiled programs. Its resources come with the first
    /// resize.
    pub fn new(
        passes: Vec<P>,
        progs: Vec<ProgramPair>,
        views: Vec<ViewEntry>,
        queries: &Vec<glow::NativeQuery>,
        backend_compute: bool,
        three_pass: bool,
        timer_supported: bool,
        sizes: Sizes,
        scene_fbo: glow::NativeFramebuffer,
        scene: SceneTargets,
        blit_prog: glow::NativeProgram,
    ) -> (r: Pipeline<P>)
        requires
            progs@.len() == passes@.len(),
            passes@.len() * 2 <= usize::MAX,
        ensures
            r@.cfg == passes::starting_config(backend_compute, three_pass),
            r@.wf(),
            r@ == (PipelineModel {
                passes: passes@,
                table: Seq::empty(),
                stale: Seq::empty(),
                progs: progs@,
                enabled: r@.resolved_enabled(),
                variant: r@.resolved_variant(),
                views: view_entry_models(views@),
                timers: timers::fresh(timer_supported, queries@),
                sizes,
                cfg: PassConfig {
                    use_compute: backend_compute,
                    three_pass,
                    sharpness: Single { bits: passes::DEFAULT_SHARPNESS_BITS },
                },
                needs_reset: true,
                scene_fbo,
                scene,
                blit_prog,
                timer_supported,
                timer_frame: 0,
            }),
    {
        let mut p = Pipeline {
            passes,
            table: ResourceTable::new(),
            stale: Vec::new(),
            progs,
            enabled: Vec::new(),
            variant: Vec::new(),
            views,
            timers: PassTimers::new(timer_supported, queries),
            sizes,
            cfg: PassConfig::new(backend_compute, three_pass),
            needs_reset: true,
            scene_fbo,
            scene,
            blit_prog,
            timer_supported,
            timer_frame: 0,
        };
        proof {
            let start = Single { bits: passes::DEFAULT_SHARPNESS_BITS };
            single::constant_magnitudes();
            single::bits_order_magnitudes(start, Single { bits: single::ONE_BITS });
        }
        p.resolve_variants();
        p
    }

    /// Decides for each pass whether it runs, and on which variant.
    fn resolve_variants(&mut self)
        requires
            old(self)@.progs.len() == old(self)@.passes.len(),
        ensures
            final(self)@ == (PipelineModel {
                enabled: old(self)@.resolved_enabled(),
                variant: old(self)@.resolved_variant(),
                ..old(self)@
            }),
    {
        let mut enabled: Vec<bool> = Vec::new();
        let mut variant: Vec<Variant> = Vec::new();
        let cfg = self.cfg;
        for i in 0..self.passes.len()
            invariant
                cfg == self.cfg,
                self@.progs.len() == self@.passes.len(),
                enabled@.len() == i,
                variant@.len() == i,
                forall|k: int|
                    0 <= k < i ==> #[trigger] enabled@[k] == self@.resolved_enabled()[k],
                forall|k: int|
                    0 <= k < i ==> #[trigger] variant@[k] == self@.resolved_variant()[k],
        {
            let pair = self.progs[i];
            let has = pair.compute.is_some() || pair.fragment.is_some();
            enabled.push(self.passes[i].enabled(&cfg) && has);
            variant.push(
                if cfg.use_compute {
                    if pair.compute.is_some() {
                        Variant::Compute
                    } else {
                        Variant::Fragment
                    }
                } else if pair.fragment.is_none() && pair.compute.is_some() {
                    Variant::Compute
                } else {
                    Variant::Fragment
                },
            );
        }
        assert(enabled@ =~= self@.resolved_enabled());
        assert(variant@ =~= self@.resolved_variant());
        self.enabled = enabled;
        self.variant = variant;
    }

    /// Takes over new sizes: gives up every texture and framebuffer, the
    /// scene's included, and plans new ones. History starts over.
    pub fn resize(&mut self, rw: u32, rh: u32, dw: u32, dh: u32) -> (r: Rebuild)
        requires
            old(self)@.wf(),
        ensures
            r.release@ == old(self)@.holdings(),
            resources::allocation_models(r.plan@) == resources::plan_of(
                declarations(old(self)@.passes),
                Sizes { render: (rw, rh), display: (dw, dh) },
            ),
            final(self)@ == (PipelineModel {
                table: Seq::empty(),
                stale: Seq::empty(),
                sizes: Sizes { render: (rw, rh), display: (dw, dh) },
                needs_reset: true,
                timer_frame: 0,
                ..old(self)@
            }),
            final(self)@.wf(),
    {
        self.sizes = Sizes { render: (rw, rh), display: (dw, dh) };
        let mut release = self.table.take_all();
        let ghost owned = release@;
        for i in 0..self.stale.len()
            invariant
                release@ == owned + textures(self.stale@.take(i as int)),
        {
            release.push(Release::Texture(self.stale[i]));
            assert(release@ =~= owned + textures(self.stale@.take(i + 1)));
        }
        assert(self.stale@.take(self.stale@.len() as int) =~= self.stale@);
        self.stale = Vec::new();
        release.push(Release::Texture(self.scene.color));
        release.push(Release::Texture(self.scene.velocity));
        release.push(Release::Texture(self.scene.depth));
        assert(release@ =~= resources::all_released(old(self)@.table) + textures(
            old(self)@.stale,
        ) + textures(seq![self.scene.color, self.scene.velocity, self.scene.depth]));
        let specs = declared_by(&self.passes);
        let plan = resources::plan(&specs, self.sizes);
        self.needs_reset = true;
        self.timer_frame = 0;
        proof {
            lemma_resolution_depends(old(self)@, self@);
        }
        Rebuild { release: resources::without_repetitions(&release), plan }
    }

    /// Takes over the textures that a resize asked for. The result lists the
    /// framebuffers to clear to black.
    pub fn install(
        &mut self,
        scene: SceneTargets,
        plan: &Vec<Allocation>,
        handles: Vec<TapHandles>,
    ) -> (r: Vec<glow::NativeFramebuffer>)
        requires
            old(self)@.wf(),
            resources::handles_fit(resources::allocation_models(plan@), handles@),
        ensures
            final(self)@ == (PipelineModel {
                table: resources::installed(resources::allocation_models(plan@), handles@),
                scene,
                ..old(self)@
            }),
            final(self)@.wf(),
            final(self)@ == laws::after_call(
                old(self)@,
                Call::Install(final(self)@.table, scene),
            ),
            r@ == cleared(final(self)@.table),
    {
        self.scene = scene;
        self.table.install(plan, handles);
        proof {
            lemma_resolution_depends(old(self)@, self@);
        }
        let mut out: Vec<glow::NativeFramebuffer> = Vec::new();
        push_framebuffers(&self.table, "data", &mut out);
        push_framebuffers(&self.table, "luma", &mut out);
        assert(out@ =~= cleared(self@.table));
        out
    }

    /// Whether a frame can be run.
    pub fn is_ready(&self) -> (r: bool)
        requires
            self@.wf(),
        ensures
            r == self@.ready(),
    {
        for i in 0..self.passes.len()
            invariant
                self@.wf(),
                forall|k: int|
                    #![trigger self@.enabled[k]]
                    0 <= k < i && self@.enabled[k] ==> {
                        &&& passes::dispatchable(self@.sizes.render)
                        &&& passes::dispatchable(self@.sizes.display)
                        &&& self@.variant[k] == Variant::Fragment
                            && self@.passes[k].flow().writes.len() > 0 ==> resources::position(
                            self@.table,
                            self@.passes[k].flow().writes[0],
                        ) is Some
                    },
        {
            assert(self@.enabled.len() == self@.passes.len());
            assert(self@.variant.len() == self@.passes.len());
            if self.enabled[i] {
                let (rw, rh) = self.sizes.render;
                let (dw, dh) = self.sizes.display;
                let most: u32 = u32::MAX - 7;
                if rw > most || rh > most || dw > most || dh > most {
                    assert(self@.enabled[i as int]);
                    return false;
                }
                if self.variant[i] == Variant::Fragment {
                    let io = self.passes[i].io();
                    assert(text::str_views(io.writes@) == self@.passes[i as int].flow().writes);
                    if io.writes.len() > 0 {
                        assert(self@.passes[i as int].flow().writes[0] == io.writes@[0]@);
                        if self.table.res_idx(io.writes[0]).is_none() {
                            assert(self@.enabled[i as int]);
                            return false;
                        }
                    }
                }
            }
        }
        true
    }

    /// Registers a texture produced outside. The next resize deletes it if it
    /// is still registered then, and deletes the texture of the table's own
    /// that it pushes out. A registered texture that another one replaces
    /// stays with whoever made it.
    pub fn set_external(&mut self, name: &str, tex: glow::NativeTexture)
        requires
            old(self)@.wf(),
        ensures
            final(self)@ == (PipelineModel {
                table: resources::with_external(old(self)@.table, name@, tex),
                stale: old(self)@.stale + listed(resources::displaced(old(self)@.table, name@)),
                ..old(self)@
            }),
            final(self)@.wf(),
            final(self)@ == laws::after_call(old(self)@, Call::SetExternal(name@, tex)),
    {
        proof {
            resources::external_keeps_the_shape(self@.table, name@, tex);
        }
        self.register(name, tex);
        proof {
            lemma_resolution_depends(old(self)@, self@);
        }
    }

    fn view_idx(&self, label: &str) -> (r: Option<usize>)
        ensures
            r is Some == view_position(self@.views, label@) is Some,
            r is Some ==> r->0 == view_position(self@.views, label@)->0 && r->0 < self@.views.len(),
    {
        for i in 0..self.views.len()
            invariant
                forall|j: int| 0 <= j < i ==> (#[trigger] self@.views[j]).label != label@,
        {
            assert(self@.views[i as int] == self.views@[i as int]@);
            if text::same(self.views[i].label, label) {
                proof {
                    view_position_finds(self@.views, label@);
                }
                return Some(i);
            }
        }
        proof {
            view_position_finds(self@.views, label@);
        }
        None
    }

    /// The texture that a debug view shows now.
    pub fn view_tex(&self, label: &str) -> (r: Option<glow::NativeTexture>)
        ensures
            r == match view_position(self@.views, label@) {
                Some(i) => resources::read_of(self@.table, self@.views[i].source),
                None => None,
            },
    {
        match self.view_idx(label) {
            Some(i) => {
                assert(self@.views[i as int] == self.views@[i as int]@);
                self.table.read_tex(self.views[i].source)
            },
            None => None,
        }
    }

    /// The program that visualizes a debug view.
    pub fn view_program(&self, label: &str) -> (r: Option<glow::NativeProgram>)
        ensures
            r == match view_position(self@.views, label@) {
                Some(i) => Some(self@.views[i].program),
                None => None,
            },
    {
        match self.view_idx(label) {
            Some(i) => {
                assert(self@.views[i as int] == self.views@[i as int]@);
                Some(self.views[i].program)
            },
            None => None,
        }
    }

    /// The unsharpened frame, for the before/after toggle.
    pub fn pre_sharpen_tex(&self) -> (r: glow::NativeTexture)
        ensures
            r == match resources::read_of(self@.table, "history"@) {
                Some(t) => t,
                None => self@.scene.color,
            },
    {
        match self.table.read_tex("history") {
            Some(t) => t,
            None => self.scene.color,
        }
    }

    /// Starts a frame's timer rotation. It comes before the scene is drawn,
    /// which times itself too.
    pub fn begin_frame(&mut self)
        requires
            old(self)@.wf(),
            old(self)@.timer_frame < u64::MAX,
        ensures
            final(self)@ == (PipelineModel {
                timers: TimersModel {
                    only: Some(timers::turn(old(self)@.timer_frame)),
                    ..old(self)@.timers
                },
                timer_frame: old(self)@.timer_frame + 1,
                ..old(self)@
            }),
            final(self)@.wf(),
            final(self)@ == laws::after_call(old(self)@, Call::BeginFrame),
    {
        self.timers.take_turn(self.timer_frame);
        self.timer_frame = self.timer_frame + 1;
        proof {
            lemma_resolution_depends(old(self)@, self@);
        }
    }

    /// Frames begun since the last resize.
    pub fn frames_begun(&self) -> (r: u64)
        ensures
            r == self@.timer_frame,
    {
        self.timer_frame
    }

    /// Prefers the compute path, or pins the fragment path.
    pub fn set_compute(&mut self, on: bool)
        requires
            old(self)@.wf(),
        ensures
            final(self)@ == old(self)@.reconfigured(
                (PassConfig { use_compute: on, ..old(self)@.cfg }),
            ),
            final(self)@.wf(),
            final(self)@ == laws::after_call(old(self)@, Call::Configure(final(self)@.cfg)),
    {
        self.cfg.use_compute = on;
        self.resolve_variants();
    }

    /// Switches the three-pass quality on or off.
    pub fn set_three_pass(&mut self, on: bool)
        requires
            old(self)@.wf(),
        ensures
            final(self)@ == old(self)@.reconfigured(
                (PassConfig { three_pass: on, ..old(self)@.cfg }),
            ),
            final(self)@.wf(),
            final(self)@ == laws::after_call(old(self)@, Call::Configure(final(self)@.cfg)),
    {
        self.cfg.three_pass = on;
        self.resolve_variants();
    }

    /// Sets the sharpness, clamped into `[0.0, 1.0]`.
    pub fn set_sharpness(&mut self, s: Single)
        requires
            old(self)@.wf(),
        ensures
            final(self)@.cfg.sharpness == single::requested_unit(s),
            final(self)@ == old(self)@.reconfigured(
                (PassConfig {
                    sharpness: single::clamped(
                        s,
                        Single { bits: single::ZERO_BITS },
                        Single { bits: single::ONE_BITS },
                    ),
                    ..old(self)@.cfg
                }),
            ),
            final(self)@.wf(),
            final(self)@ == laws::after_call(old(self)@, Call::Configure(final(self)@.cfg)),
            single::is_unit(final(self)@.cfg.sharpness),
    {
        self.cfg.sharpness = s.to_unit();
        self.resolve_variants();
    }

    /// One step up in sharpness.
    pub fn sharpen(&mut self)
        requires
            old(self)@.wf(),
        ensures
            single::is_sharper(old(self)@.cfg.sharpness, final(self)@.cfg.sharpness),
            final(self)@ == old(self)@.reconfigured(
                (PassConfig { sharpness: final(self)@.cfg.sharpness, ..old(self)@.cfg }),
            ),
            final(self)@.wf(),
            final(self)@ == laws::after_call(old(self)@, Call::Configure(final(self)@.cfg)),
    {
        self.cfg.sharpness = single::sharpen_up(self.cfg.sharpness);
        self.resolve_variants();
    }

    /// One step down in sharpness.
    pub fn soften(&mut self)
        requires
            old(self)@.wf(),
        ensures
            single::is_softer(old(self)@.cfg.sharpness, final(self)@.cfg.sharpness),
            final(self)@ == old(self)@.reconfigured(
                (PassConfig { sharpness: final(self)@.cfg.sharpness, ..old(self)@.cfg }),
            ),
            final(self)@.wf(),
            final(self)@ == laws::after_call(old(self)@, Call::Configure(final(self)@.cfg)),
    {
        self.cfg.sharpness = single::sharpen_down(self.cfg.sharpness);
        self.resolve_variants();
    }

    /// Makes the next frame start over.
    pub fn request_reset(&mut self)
        requires
            old(self)@.wf(),
        ensures
            final(self)@ == (PipelineModel { needs_reset: true, ..old(self)@ }),
            final(self)@.wf(),
            final(self)@ == laws::after_call(old(self)@, Call::RequestReset),
    {
        self.needs_reset = true;
        proof {
            lemma_resolution_depends(old(self)@, self@);
        }
    }

    /// Whether the next frame starts over.
    pub fn resets(&self) -> (r: bool)
        ensures
            r == self@.needs_reset,
    {
        self.needs_reset
    }

    pub fn scene_fbo(&self) -> (r: glow::NativeFramebuffer)
        ensures
            r == self@.scene_fbo,
    {
        self.scene_fbo
    }

    pub fn render_size(&self) -> (r: (u32, u32))
        ensures
            r == self@.sizes.render,
    {
        self.sizes.render
    }

    pub fn display_size(&self) -> (r: (u32, u32))
        ensures
            r == self@.sizes.display,
    {
        self.sizes.display
    }

    pub fn use_compute(&self) -> (r: bool)
        ensures
            r == self@.cfg.use_compute,
    {
        self.cfg.use_compute
    }

    pub fn three_pass(&self) -> (r: bool)
        ensures
            r == self@.cfg.three_pass,
    {
        self.cfg.three_pass
    }

    pub fn sharpness(&self) -> (r: Single)
        ensures
            r == self@.cfg.sharpness,
    {
        self.cfg.sharpness
    }

    /// Whether every pass of the configuration has its compute program.
    pub fn can_compute(&self) -> (r: bool)
        requires
            self@.wf(),
        ensures
            r == forall|i: int|
                0 <= i < self@.passes.len() ==> (#[trigger] self@.progs[i]).compute is Some
                    || !self@.passes[i].runs(self@.cfg),
    {
        for i in 0..self.passes.len()
            invariant
                self@.wf(),
                forall|k: int|
                    0 <= k < i ==> (#[trigger] self@.progs[k]).compute is Some
                        || !self@.passes[k].runs(self@.cfg),
        {
            assert(self@.progs[i as int] == self.progs@[i as int]);
            if self.progs[i].compute.is_none() && self.passes[i].enabled(&self.cfg) {
                return false;
            }
        }
        true
    }

    /// The smoothed milliseconds of a section that has had a result.
    pub fn timing(&self, pass: PassId) -> (r: Option<Single>)
        requires
            self@.wf(),
        ensures
            r == self@.timers.smoothed(pass),
    {
        self.timers.ema(pass)
    }

    /// The timing overlay. `texts` holds the smoothed milliseconds of each
    /// section as text, in section order.
    pub fn timers_report(&self, texts: &Vec<String>) -> (r: String)
        requires
            self@.wf(),
            texts@.len() == 6,
        ensures
            r@ == timers::overlay(self@.timers, text::string_views(texts@)),
    {
        self.timers.report(texts)
    }

    /// Whether timing was asked for.
    pub fn timers_supported(&self) -> (r: bool)
        ensures
            r == self@.timer_supported,
    {
        self.timer_supported
    }

    /// Whether a query for `pass` may be issued this frame.
    pub fn timer_armed(&self, pass: PassId) -> (r: bool)
        ensures
            r == self@.timers.armed(pass),
    {
        self.timers.timer_armed(pass)
    }

    /// Starts timing `pass`; the result is the query to begin.
    pub fn timer_begin(&mut self, pass: PassId) -> (r: Option<glow::NativeQuery>)
        requires
            old(self)@.wf(),
        ensures
            final(self)@ == (PipelineModel {
                timers: old(self)@.timers.begun(pass),
                ..old(self)@
            }),
            final(self)@.wf(),
            final(self)@ == laws::after_call(old(self)@, Call::TimerBegin(pass)),
            r == old(self)@.timers.begun_query(pass),
    {
        let r = self.timers.timer_begin(pass);
        proof {
            lemma_resolution_depends(old(self)@, self@);
        }
        r
    }

    /// Whether the query of `pass` has to be ended.
    pub fn timer_end(&self, pass: PassId) -> (r: bool)
        ensures
            r == self@.timers.armed(pass),
    {
        self.timers.timer_end(pass)
    }

    /// The queries whose results are outstanding, in slot order.
    pub fn pending(&self) -> (r: Vec<Pending>)
        requires
            self@.wf(),
        ensures
            timers::pending_models(r@) == timers::pending_before(self@.timers, 18),
    {
        self.timers.pending()
    }

    /// Takes in query results; see [`PassTimers::poll`].
    pub fn poll(&mut self, results: &Vec<Option<u32>>)
        requires
            old(self)@.wf(),
            results@.len() == 18,
        ensures
            final(self)@ == (PipelineModel {
                timers: old(self)@.timers.polled(results@),
                ..old(self)@
            }),
            final(self)@.wf(),
            final(self)@ == laws::after_call(old(self)@, Call::Poll(results@)),
    {
        self.timers.poll(results);
        proof {
            lemma_resolution_depends(old(self)@, self@);
        }
    }

    /// The program that copies a texture to the screen.
    pub fn blit_prog(&self) -> (r: glow::NativeProgram)
        ensures
            r == self@.blit_prog,
    {
        self.blit_prog
    }

    /// The scene as it was drawn.
    pub fn scene_color_tex(&self) -> (r: glow::NativeTexture)
        ensures
            r == self@.scene.color,
    {
        self.scene.color
    }
}

} // verus!
