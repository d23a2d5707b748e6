//! View modes, and what each of them puts on the screen.

use vstd::prelude::*;

#[allow(unused_imports)]
use crate::passes::Pass;
use crate::pipeline;
use crate::pipeline::Pipeline;
#[allow(unused_imports)]
use crate::pipeline::PipelineModel;
use crate::resources;
use crate::text;

verus! {

/// What the window shows.
#[derive(Debug, Clone, Copy, PartialEq, Eq, Structural)]
pub enum ViewMode {
    Upscaled,
    Native,
    Split,
    Motion,
    Luma,
    Clip,
}

/// The mode after `v` in the cycle.
pub open spec fn successor(v: ViewMode) -> ViewMode {
    match v {
        ViewMode::Upscaled => ViewMode::Native,
        ViewMode::Native => ViewMode::Split,
        ViewMode::Split => ViewMode::Motion,
        ViewMode::Motion => ViewMode::Luma,
        ViewMode::Luma => ViewMode::Clip,
        ViewMode::Clip => ViewMode::Upscaled,
    }
}

/// The name of a mode on the status line.
pub open spec fn name_of(v: ViewMode) -> Seq<char> {
    match v {
        ViewMode::Upscaled => "upscaled"@,
        ViewMode::Native => "native scene"@,
        ViewMode::Split => "split native|upscaled"@,
        ViewMode::Motion => "motion/disocc debug"@,
        ViewMode::Luma => "luma-history debug"@,
        ViewMode::Clip => "activate clip/edge debug"@,
    }
}

/// The mode that an option names; an unknown name is the upscaled view.
pub open spec fn mode_of(option: Seq<char>) -> ViewMode {
    if option == "native"@ {
        ViewMode::Native
    } else if option == "split"@ {
        ViewMode::Split
    } else if option == "motion"@ {
        ViewMode::Motion
    } else if option == "luma"@ {
        ViewMode::Luma
    } else if option == "clip"@ {
        ViewMode::Clip
    } else {
        ViewMode::Upscaled
    }
}

impl ViewMode {
    /// The next mode of the cycle.
    pub fn next(self) -> (r: ViewMode)
        ensures
            r == successor(self),
    {
        match self {
            ViewMode::Upscaled => ViewMode::Native,
            ViewMode::Native => ViewMode::Split,
            ViewMode::Split => ViewMode::Motion,
            ViewMode::Motion => ViewMode::Luma,
            ViewMode::Luma => ViewMode::Clip,
            ViewMode::Clip => ViewMode::Upscaled,
        }
    }

    /// The name of the mode on the status line.
    pub fn name(self) -> (r: &'static str)
        ensures
            r@ == name_of(self),
    {
        match self {
            ViewMode::Upscaled => "upscaled",
            ViewMode::Native => "native scene",
            ViewMode::Split => "split native|upscaled",
            ViewMode::Motion => "motion/disocc debug",
            ViewMode::Luma => "luma-history debug",
            ViewMode::Clip => "activate clip/edge debug",
        }
    }

    /// The mode that an option names.
    pub fn from_option(option: &str) -> (r: ViewMode)
        ensures
            r == mode_of(option@),
    {
        if text::same(option, "native") {
            ViewMode::Native
        } else if text::same(option, "split") {
            ViewMode::Split
        } else if text::same(option, "motion") {
            ViewMode::Motion
        } else if text::same(option, "luma") {
            ViewMode::Luma
        } else if text::same(option, "clip") {
            ViewMode::Clip
        } else {
            ViewMode::Upscaled
        }
    }
}

/// A texture drawn over a rectangle of the window.
#[derive(Debug, Clone, Copy)]
pub struct Blit {
    pub texture: glow::NativeTexture,
    pub program: glow::NativeProgram,
    pub x: u32,
    pub y: u32,
    pub width: u32,
    pub height: u32,
}

/// A texture drawn over the whole window.
pub open spec fn whole(
    texture: glow::NativeTexture,
    program: glow::NativeProgram,
    width: u32,
    height: u32,
) -> Seq<Blit> {
    seq![Blit { texture, program, x: 0, y: 0, width, height }]
}

/// A debug view over the whole window, or the frame where the view or its
/// resource is missing.
pub open spec fn debug_blits<P>(
    m: PipelineModel<P>,
    label: Seq<char>,
    output: glow::NativeTexture,
    width: u32,
    height: u32,
) -> Seq<Blit> {
    match pipeline::view_position(m.views, label) {
        Some(i) => match resources::read_of(m.table, m.views[i].source) {
            Some(t) => whole(t, m.views[i].program, width, height),
            None => whole(output, m.blit_prog, width, height),
        },
        None => whole(output, m.blit_prog, width, height),
    }
}

/// The frame before sharpening.
pub open spec fn unsharpened<P>(m: PipelineModel<P>) -> glow::NativeTexture {
    match resources::read_of(m.table, "history"@) {
        Some(t) => t,
        None => m.scene.color,
    }
}

/// What a view puts on the screen once the frame `output` is there. The split
/// view has the scene in the left half and the frame in the right one.
pub open spec fn view_blits<P>(
    m: PipelineModel<P>,
    view: ViewMode,
    show_pre: bool,
    output: glow::NativeTexture,
    width: u32,
    height: u32,
) -> Seq<Blit> {
    match view {
        ViewMode::Upscaled => whole(
            if show_pre {
                unsharpened(m)
            } else {
                output
            },
            m.blit_prog,
            width,
            height,
        ),
        ViewMode::Native => whole(m.scene.color, m.blit_prog, width, height),
        ViewMode::Split => seq![
            Blit {
                texture: m.scene.color,
                program: m.blit_prog,
                x: 0,
                y: 0,
                width: width / 2,
                height,
            },
            Blit {
                texture: output,
                program: m.blit_prog,
                x: width / 2,
                y: 0,
                width: (width - width / 2) as u32,
                height,
            },
        ],
        ViewMode::Motion => debug_blits(m, "motion"@, output, width, height),
        ViewMode::Luma => debug_blits(m, "luma"@, output, width, height),
        ViewMode::Clip => debug_blits(m, "clip"@, output, width, height),
    }
}

fn full(
    texture: glow::NativeTexture,
    program: glow::NativeProgram,
    width: u32,
    height: u32,
) -> (r: Vec<Blit>)
    ensures
        r@ == whole(texture, program, width, height),
{
    let mut r: Vec<Blit> = Vec::new();
    r.push(Blit { texture, program, x: 0, y: 0, width, height });
    assert(r@ =~= whole(texture, program, width, height));
    r
}

fn debug_view<P: Pass>(
    pipe: &Pipeline<P>,
    label: &str,
    output: glow::NativeTexture,
    width: u32,
    height: u32,
) -> (r: Vec<Blit>)
    ensures
        r@ == debug_blits(pipe@, label@, output, width, height),
{
    match (pipe.view_tex(label), pipe.view_program(label)) {
        (Some(texture), Some(program)) => full(texture, program, width, height),
        _ => full(output, pipe.blit_prog(), width, height),
    }
}

/// Copies a texture over the whole window.
pub fn blit_to_screen<P: Pass>(
    pipe: &Pipeline<P>,
    texture: glow::NativeTexture,
    width: u32,
    height: u32,
) -> (r: Vec<Blit>)
    ensures
        r@ == whole(texture, pipe@.blit_prog, width, height),
{
    full(texture, pipe.blit_prog(), width, height)
}

/// What a view puts on the screen.
pub fn blits<P: Pass>(
    pipe: &Pipeline<P>,
    view: ViewMode,
    show_pre: bool,
    output: glow::NativeTexture,
    width: u32,
    height: u32,
) -> (r: Vec<Blit>)
    ensures
        r@ == view_blits(pipe@, view, show_pre, output, width, height),
{
    match view {
        ViewMode::Upscaled => {
            let texture = if show_pre {
                pipe.pre_sharpen_tex()
            } else {
                output
            };
            full(texture, pipe.blit_prog(), width, height)
        },
        ViewMode::Native => full(pipe.scene_color_tex(), pipe.blit_prog(), width, height),
        ViewMode::Split => {
            let half: u32 = width / 2;
            let mut r = full(pipe.scene_color_tex(), pipe.blit_prog(), half, height);
            r.push(
                Blit {
                    texture: output,
                    program: pipe.blit_prog(),
                    x: half,
                    y: 0,
                    width: width - half,
                    height,
                },
            );
            assert(r@ =~= view_blits(pipe@, view, show_pre, output, width, height));
            r
        },
        ViewMode::Motion => debug_view(pipe, "motion", output, width, height),
        ViewMode::Luma => debug_view(pipe, "luma", output, width, height),
        ViewMode::Clip => debug_view(pipe, "clip", output, width, height),
    }
}

/// The mode after `k` steps of the cycle.
pub open spec fn stepped(v: ViewMode, k: nat) -> ViewMode
    decreases k,
{
    if k == 0 {
        v
    } else {
        successor(stepped(v, (k - 1) as nat))
    }
}

/// Six steps come back to the mode they started from, and pass every mode.
pub proof fn the_cycle_visits_every_mode(from: ViewMode, mode: ViewMode)
    ensures
        stepped(from, 6) == from,
        exists|k: nat| k < 6 && #[trigger] stepped(from, k) == mode,
{
    reveal_with_fuel(stepped, 7);
    let a = stepped(from, 0);
    let b = stepped(from, 1);
    let c = stepped(from, 2);
    let d = stepped(from, 3);
    let e = stepped(from, 4);
    let f = stepped(from, 5);
    assert(a == mode || b == mode || c == mode || d == mode || e == mode || f == mode);
}

/// The two halves of the split view tile the window and differ by at most one
/// column.
pub proof fn split_tiles_the_window<P>(
    m: PipelineModel<P>,
    show_pre: bool,
    output: glow::NativeTexture,
    width: u32,
    height: u32,
)
    ensures
        ({
            let b = view_blits(m, ViewMode::Split, show_pre, output, width, height);
            &&& b.len() == 2
            &&& b[0].x == 0
            &&& b[1].x == b[0].width
            &&& b[0].width + b[1].width == width
            &&& b[0].width <= b[1].width <= b[0].width + 1
            &&& b[0].height == height
            &&& b[1].height == height
        }),
{
}

} // verus!
