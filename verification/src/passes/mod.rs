//! The generic pass abstraction.
//!
//! A pass declares what it reads and writes, supplies its shader sources and
//! records its shader work. The framework owns ordering, resource
//! resolution, ping-pong flips, the compute/fragment decision, timers and
//! debug views. Passes never bind targets, never pick a path and never touch
//! timers.

use vstd::prelude::*;

use crate::commands;
use crate::commands::{Command, UniformValue};
#[allow(unused_imports)]
use crate::commands::{CommandModel, UniformModel};
use crate::mat4;
use crate::records::IgsrParamsFfi;
use crate::resources;
#[allow(unused_imports)]
use crate::resources::{ResourceSpec, SpecModel};
use crate::single::Single;
use crate::text;

pub mod activate;
pub mod convert;
pub mod sharpen;
pub mod stage;
pub mod upscale;

verus! {

/// Which dispatch path a pass runs on. Selection is the framework's job.
#[derive(Debug, Clone, Copy, PartialEq, Eq, Structural)]
pub enum Variant {
    Compute,
    Fragment,
}

/// Which variants a pass implements.
#[derive(Debug, Clone, Copy, PartialEq, Eq, Structural)]
pub struct Variants {
    pub compute: bool,
    pub fragment: bool,
}

impl Variants {
    /// Both paths.
    pub fn both() -> (r: Variants)
        ensures
            r == (Variants { compute: true, fragment: true }),
    {
        Variants { compute: true, fragment: true }
    }

    /// The compute path alone.
    pub fn compute_only() -> (r: Variants)
        ensures
            r == (Variants { compute: true, fragment: false }),
    {
        Variants { compute: true, fragment: false }
    }
}

/// Logical resource name.
pub type ResourceRef = &'static str;

/// Declared data flow of one pass.
#[derive(Debug, Clone, Copy)]
pub struct PassIo {
    /// Resources sampled, resolved before the pass runs.
    pub reads: &'static [ResourceRef],
    /// Resources written. Writing a ping-pong resource flips it afterwards.
    pub writes: &'static [ResourceRef],
    /// The final output, if the pass is terminal.
    pub final_output: Option<ResourceRef>,
}

/// What a [`PassIo`] declares.
#[verifier::ext_equal]
pub struct Flow {
    pub reads: Seq<Seq<char>>,
    pub writes: Seq<Seq<char>>,
    pub final_output: Option<Seq<char>>,
}

impl View for PassIo {
    type V = Flow;

    open spec fn view(&self) -> Flow {
        Flow {
            reads: text::str_views(self.reads@),
            writes: text::str_views(self.writes@),
            final_output: match self.final_output {
                Some(n) => Some(n@),
                None => None,
            },
        }
    }
}

/// A debug view that a pass offers: a label, the resource it displays and the
/// fragment shader that visualizes it.
#[derive(Debug, Clone, Copy)]
pub struct DebugViewSpec {
    pub label: &'static str,
    pub source: ResourceRef,
    pub frag: &'static str,
}

/// What a [`DebugViewSpec`] says.
pub struct ViewModel {
    pub label: Seq<char>,
    pub source: Seq<char>,
    pub frag: Seq<char>,
}

impl View for DebugViewSpec {
    type V = ViewModel;

    open spec fn view(&self) -> ViewModel {
        ViewModel { label: self.label@, source: self.source@, frag: self.frag@ }
    }
}

/// What a list of debug views says.
pub open spec fn view_models(list: Seq<DebugViewSpec>) -> Seq<ViewModel> {
    list.map_values(|v: DebugViewSpec| v@)
}

/// The shader sources. Compute bodies carry no version line.
#[derive(Debug)]
pub struct ShaderSet {
    pub fullscreen_vert: String,
    pub convert_frag: String,
    pub convert_comp: String,
    pub activate_comp: String,
    pub upscale_frag: String,
    pub upscale_comp: String,
    pub sharpen_frag: String,
    pub sharpen_comp: String,
}

/// Pipeline-wide configuration.
#[derive(Debug, Clone, Copy, PartialEq, Eq, Structural)]
pub struct PassConfig {
    pub use_compute: bool,
    pub three_pass: bool,
    pub sharpness: Single,
}

/// The single-precision number nearest to 0.3.
pub const DEFAULT_SHARPNESS_BITS: u32 = 0x3E99_999A;

/// The configuration that a pipeline starts with.
pub open spec fn starting_config(use_compute: bool, three_pass: bool) -> PassConfig {
    PassConfig { use_compute, three_pass, sharpness: Single { bits: DEFAULT_SHARPNESS_BITS } }
}

impl PassConfig {
    /// A configuration with the default sharpness.
    pub fn new(use_compute: bool, three_pass: bool) -> (r: Self)
        ensures
            r == starting_config(use_compute, three_pass),
            r == (PassConfig {
                use_compute,
                three_pass,
                sharpness: Single { bits: DEFAULT_SHARPNESS_BITS },
            }),
    {
        PassConfig { use_compute, three_pass, sharpness: Single { bits: DEFAULT_SHARPNESS_BITS } }
    }
}

/// What a pass sees when it records its work.
pub struct Inputs {
    pub params: IgsrParamsFfi,
    pub reads: Seq<glow::NativeTexture>,
    pub writes: Seq<glow::NativeTexture>,
    pub display_size: (u32, u32),
    pub render_size: (u32, u32),
    pub sharpness: Single,
    pub program: Option<glow::NativeProgram>,
    pub key: nat,
    pub variant: Variant,
}

/// Setting a uniform: nothing happens without a program.
pub open spec fn uniform(i: Inputs, name: Seq<char>, value: UniformModel) -> Seq<CommandModel> {
    match i.program {
        Some(program) => seq![CommandModel::Uniform { key: i.key, program, name, value }],
        None => Seq::empty(),
    }
}

/// Pointing a sampler at a texture unit.
pub open spec fn sampler(i: Inputs, name: Seq<char>, unit: u32) -> Seq<CommandModel> {
    uniform(i, name, UniformModel::Int(unit as i32))
}

/// Setting a pair of floats.
pub open spec fn pair(i: Inputs, name: Seq<char>, v: Seq<Single>) -> Seq<CommandModel> {
    uniform(i, name, UniformModel::Pair(v[0], v[1]))
}

/// Setting a float.
pub open spec fn float(i: Inputs, name: Seq<char>, v: Single) -> Seq<CommandModel> {
    uniform(i, name, UniformModel::Float(v))
}

/// Binding a texture to a unit.
pub open spec fn bind(unit: nat, texture: glow::NativeTexture) -> Seq<CommandModel> {
    seq![CommandModel::BindTexture { unit, texture }]
}

/// Number of groups of eight that cover `n`.
pub open spec fn groups(n: u32) -> nat {
    ((n + 7) / 8) as nat
}

/// Issuing the work over `size`: compute groups of eight by eight, or one
/// fullscreen draw.
pub open spec fn launch(i: Inputs, size: (u32, u32)) -> Seq<CommandModel> {
    match i.variant {
        Variant::Compute => seq![
            CommandModel::Dispatch { x: groups(size.0), y: groups(size.1), z: 1 },
        ],
        Variant::Fragment => seq![CommandModel::Draw],
    }
}

/// The group count for this size can be computed.
pub open spec fn dispatchable(size: (u32, u32)) -> bool {
    size.0 <= u32::MAX - 7 && size.1 <= u32::MAX - 7
}

/// Per-dispatch context: resolved resources, frame parameters and a recorder.
/// Passes cannot reach the resource table or the pipeline.
#[derive(Debug)]
pub struct PassCtx {
    /// Frame uniforms.
    pub params: IgsrParamsFfi,
    /// Resolved read handles, in the order of the declared reads.
    pub reads: Vec<glow::NativeTexture>,
    /// Resolved write handles, in the order of the declared writes.
    pub writes: Vec<glow::NativeTexture>,
    pub display_size: (u32, u32),
    pub render_size: (u32, u32),
    /// Pipeline-owned sharpness.
    pub sharpness: Single,
    pub active_prog: Option<glow::NativeProgram>,
    pub active_key: usize,
    pub variant: Variant,
    pub commands: Vec<Command>,
}

impl PassCtx {
    /// What the pass sees.
    pub open spec fn inputs(&self) -> Inputs {
        Inputs {
            params: self.params,
            reads: self.reads@,
            writes: self.writes@,
            display_size: self.display_size,
            render_size: self.render_size,
            sharpness: self.sharpness,
            program: self.active_prog,
            key: self.active_key as nat,
            variant: self.variant,
        }
    }

    /// What has been recorded.
    pub open spec fn recorded(&self) -> Seq<CommandModel> {
        commands::command_models(self.commands@)
    }

    /// A context with nothing resolved yet.
    pub fn new(params: IgsrParamsFfi) -> (r: PassCtx)
        ensures
            r.inputs() == (Inputs {
                params,
                reads: Seq::empty(),
                writes: Seq::empty(),
                display_size: (0, 0),
                render_size: (0, 0),
                sharpness: Single { bits: DEFAULT_SHARPNESS_BITS },
                program: None,
                key: 0,
                variant: Variant::Fragment,
            }),
            r.recorded() == Seq::<CommandModel>::empty(),
    {
        let r = PassCtx {
            params,
            reads: Vec::new(),
            writes: Vec::new(),
            display_size: (0, 0),
            render_size: (0, 0),
            sharpness: Single { bits: DEFAULT_SHARPNESS_BITS },
            active_prog: None,
            active_key: 0,
            variant: Variant::Fragment,
            commands: Vec::new(),
        };
        assert(r.recorded() =~= Seq::<CommandModel>::empty());
        r
    }

    /// Points the context at the program about to run. `key` names it in the
    /// location cache.
    pub fn set_active(&mut self, prog: Option<glow::NativeProgram>, key: usize, variant: Variant)
        ensures
            final(self).inputs() == (Inputs {
                program: prog,
                key: key as nat,
                variant,
                ..old(self).inputs()
            }),
            final(self).recorded() == old(self).recorded(),
    {
        self.active_prog = prog;
        self.active_key = key;
        self.variant = variant;
    }

    fn push(&mut self, c: Command)
        ensures
            final(self).inputs() == old(self).inputs(),
            final(self).recorded() == old(self).recorded().push(c@),
    {
        proof {
            commands::pushing_a_command(self.commands@, c);
        }
        self.commands.push(c);
    }

    /// Issues the pass's work on the path that the framework chose.
    pub fn execute(&mut self, gx: u32, gy: u32, gz: u32)
        ensures
            final(self).inputs() == old(self).inputs(),
            final(self).recorded() == old(self).recorded().push(
                match old(self).inputs().variant {
                    Variant::Compute => CommandModel::Dispatch {
                        x: gx as nat,
                        y: gy as nat,
                        z: gz as nat,
                    },
                    Variant::Fragment => CommandModel::Draw,
                },
            ),
    {
        match self.variant {
            Variant::Compute => self.push(Command::Dispatch { x: gx, y: gy, z: gz }),
            Variant::Fragment => self.push(Command::Draw),
        }
    }

    /// Issues the pass's work over `size`.
    pub fn cover(&mut self, size: (u32, u32))
        requires
            dispatchable(size),
        ensures
            final(self).inputs() == old(self).inputs(),
            final(self).recorded() == old(self).recorded() + launch(old(self).inputs(), size),
    {
        self.execute((size.0 + 7) / 8, (size.1 + 7) / 8, 1);
        assert(self.recorded() =~= old(self).recorded() + launch(old(self).inputs(), size));
    }

    fn set(&mut self, name: &'static str, value: UniformValue)
        ensures
            final(self).inputs() == old(self).inputs(),
            final(self).recorded() == old(self).recorded() + uniform(
                old(self).inputs(),
                name@,
                value@,
            ),
    {
        if let Some(program) = self.active_prog {
            self.push(Command::Uniform { key: self.active_key, program, name, value });
        }
        assert(self.recorded() =~= old(self).recorded() + uniform(
            old(self).inputs(),
            name@,
            value@,
        ));
    }

    pub fn set1f(&mut self, name: &'static str, v: Single)
        ensures
            final(self).inputs() == old(self).inputs(),
            final(self).recorded() == old(self).recorded() + float(old(self).inputs(), name@, v),
    {
        self.set(name, UniformValue::Float(v));
    }

    pub fn set1i(&mut self, name: &'static str, v: i32)
        ensures
            final(self).inputs() == old(self).inputs(),
            final(self).recorded() == old(self).recorded() + uniform(
                old(self).inputs(),
                name@,
                UniformModel::Int(v),
            ),
    {
        self.set(name, UniformValue::Int(v));
    }

    pub fn set2f(&mut self, name: &'static str, x: Single, y: Single)
        ensures
            final(self).inputs() == old(self).inputs(),
            final(self).recorded() == old(self).recorded() + uniform(
                old(self).inputs(),
                name@,
                UniformModel::Pair(x, y),
            ),
    {
        self.set(name, UniformValue::Pair(x, y));
    }

    /// Sets a matrix given in row-major order; the uniform is column-major.
    pub fn set_mat4_rowmajor(&mut self, name: &'static str, rowmajor: &[Single; 16])
        ensures
            final(self).inputs() == old(self).inputs(),
            final(self).recorded() == old(self).recorded() + uniform(
                old(self).inputs(),
                name@,
                UniformModel::Matrix(mat4::transposed(rowmajor@)),
            ),
    {
        let col = mat4::transpose(rowmajor);
        self.set(name, UniformValue::Matrix(col));
    }

    pub fn bind_tex(&mut self, unit: u32, tex: glow::NativeTexture)
        ensures
            final(self).inputs() == old(self).inputs(),
            final(self).recorded() == old(self).recorded() + bind(unit as nat, tex),
    {
        self.push(Command::BindTexture { unit, texture: tex });
        assert(self.recorded() =~= old(self).recorded() + bind(unit as nat, tex));
    }

    pub fn set_tex_unit(&mut self, name: &'static str, unit: u32)
        ensures
            final(self).inputs() == old(self).inputs(),
            final(self).recorded() == old(self).recorded() + sampler(
                old(self).inputs(),
                name@,
                unit,
            ),
    {
        self.set1i(name, unit as i32);
    }
}

/// One unit of GPU work.
pub trait Pass {
    /// Stable unique identifier.
    spec fn label(&self) -> Seq<char>;

    /// Declared data flow.
    spec fn flow(&self) -> Flow;

    /// Implemented variants.
    spec fn offered(&self) -> Variants;

    /// Shader sources of a variant: vertex and fragment, or nothing and the
    /// compute body.
    spec fn source_text(&self, variant: Variant, shaders: ShaderSet) -> Option<
        (Seq<char>, Seq<char>),
    >;

    /// Whether the pass runs in a configuration.
    spec fn runs(&self, cfg: PassConfig) -> bool;

    /// Declared resources.
    spec fn declared(&self) -> Seq<SpecModel>;

    /// Offered debug views.
    spec fn offered_views(&self) -> Seq<ViewModel>;

    /// What the pass records for the given inputs.
    spec fn work(&self, i: Inputs) -> Seq<CommandModel>;

    fn name(&self) -> (r: &'static str)
        ensures
            r@ == self.label(),
    ;

    fn io(&self) -> (r: PassIo)
        ensures
            r@ == self.flow(),
    ;

    fn variants(&self) -> (r: Variants)
        ensures
            r == self.offered(),
    ;

    fn sources<'a>(&self, variant: Variant, shaders: &'a ShaderSet) -> (r: Option<
        (&'a str, &'a str),
    >)
        ensures
            r is Some == self.source_text(variant, *shaders) is Some,
            r is Some ==> (r->0).0@ == (self.source_text(variant, *shaders)->0).0 && (r->0).1@ == (
            self.source_text(variant, *shaders)->0).1,
    ;

    fn enabled(&self, cfg: &PassConfig) -> (r: bool)
        ensures
            r == self.runs(*cfg),
    ;

    /// Resources this pass needs. The framework allocates the union of all
    /// declarations, one per name.
    fn resources(&self) -> (r: Vec<ResourceSpec>)
        ensures
            resources::spec_models(r@) == self.declared(),
    ;

    /// Debug views, offered even while the pass is disabled.
    fn debug_views(&self) -> (r: Vec<DebugViewSpec>)
        ensures
            view_models(r@) == self.offered_views(),
    ;

    /// Records the work. `ctx` is populated with resolved handles.
    fn dispatch(&self, ctx: &mut PassCtx)
        requires
            old(ctx).inputs().reads.len() == self.flow().reads.len(),
            dispatchable(old(ctx).inputs().render_size),
            dispatchable(old(ctx).inputs().display_size),
        ensures
            final(ctx).inputs() == old(ctx).inputs(),
            final(ctx).recorded() == old(ctx).recorded() + self.work(old(ctx).inputs()),
    ;
}

} // verus!
