//! What the shaders of the four passes are given, whatever the frame.

use vstd::prelude::*;

#[allow(unused_imports)]
use crate::commands::{CommandModel, UniformModel};
#[allow(unused_imports)]
use crate::passes::activate::Activate;
#[allow(unused_imports)]
use crate::passes::convert::Convert;
#[allow(unused_imports)]
use crate::passes::sharpen::Sharpen;
#[allow(unused_imports)]
use crate::passes::stage::Stage;
#[allow(unused_imports)]
use crate::passes::upscale::Upscale;
#[allow(unused_imports)]
use crate::passes::{Inputs, Pass, Variant};
#[allow(unused_imports)]
use crate::pipeline::PipelineModel;
#[allow(unused_imports)]
use crate::records::IgsrParamsFfi;
#[allow(unused_imports)]
use crate::single::Single;
use crate::{laws, passes, single};

verus! {

/// `c` sets the uniform called `name`.
pub open spec fn names_uniform(c: CommandModel, name: Seq<char>) -> bool {
    match c {
        CommandModel::Uniform { key, program, name: n, value } => n == name,
        _ => false,
    }
}

/// `list` sets the uniform `name` of the running program, and sets it to
/// nothing but `value`.
pub open spec fn sets(
    list: Seq<CommandModel>,
    i: Inputs,
    name: Seq<char>,
    value: UniformModel,
) -> bool {
    let c = CommandModel::Uniform { key: i.key, program: i.program->0, name, value };
    &&& list.contains(c)
    &&& forall|k: int|
        0 <= k < list.len() && names_uniform(#[trigger] list[k], name) ==> list[k] == c
}

/// `list` binds `texture` to a unit, and nothing else to it.
pub open spec fn binds(list: Seq<CommandModel>, unit: nat, texture: glow::NativeTexture) -> bool {
    &&& list.contains(CommandModel::BindTexture { unit, texture })
    &&& forall|k: int|
        0 <= k < list.len() && (#[trigger] list[k] matches CommandModel::BindTexture {
            unit: u,
            texture: t,
        } && u == unit) ==> list[k]->BindTexture_texture == texture
}

/// The sampler `name` reads `texture`.
pub open spec fn samples(
    list: Seq<CommandModel>,
    i: Inputs,
    name: Seq<char>,
    texture: glow::NativeTexture,
) -> bool {
    exists|unit: nat|
        unit < 0x8000_0000 && #[trigger] sets(list, i, name, UniformModel::Int(unit as i32))
            && binds(list, unit, texture)
}

/// `c` issues work.
pub open spec fn is_launch(c: CommandModel) -> bool {
    c is Dispatch || c is Draw
}

/// `list` ends in its only piece of work: one fullscreen draw, or as many
/// groups of eight by eight as it takes to cover `size`, and no more.
pub open spec fn covers(list: Seq<CommandModel>, variant: Variant, size: (u32, u32)) -> bool {
    &&& list.len() > 0
    &&& forall|k: int| 0 <= k < list.len() - 1 ==> !is_launch(#[trigger] list[k])
    &&& match variant {
        Variant::Fragment => list.last() is Draw,
        Variant::Compute => {
            &&& list.last() is Dispatch
            &&& size.0 <= 8 * list.last()->x < size.0 + 8
            &&& size.1 <= 8 * list.last()->y < size.1 + 8
            &&& list.last()->z == 1
        },
    }
}

/// Textures bound to the units from zero on, uniforms set, and one piece of
/// work.
spec fn laid_out(
    i: Inputs,
    bound: Seq<glow::NativeTexture>,
    set: Seq<(Seq<char>, UniformModel)>,
    last: CommandModel,
) -> Seq<CommandModel> {
    Seq::new(bound.len(), |k: int| CommandModel::BindTexture { unit: k as nat, texture: bound[k] })
        + Seq::new(
        set.len(),
        |k: int|
            CommandModel::Uniform {
                key: i.key,
                program: i.program->0,
                name: set[k].0,
                value: set[k].1,
            },
    ) + seq![last]
}

proof fn lemma_laid_out(
    list: Seq<CommandModel>,
    i: Inputs,
    bound: Seq<glow::NativeTexture>,
    set: Seq<(Seq<char>, UniformModel)>,
    last: CommandModel,
)
    requires
        list == laid_out(i, bound, set, last),
        is_launch(last),
        forall|a: int, b: int|
            0 <= a < b < set.len() ==> (#[trigger] set[a]).0 != (#[trigger] set[b]).0,
    ensures
        forall|k: int|
            0 <= k < set.len() ==> sets(list, i, (#[trigger] set[k]).0, set[k].1),
        forall|k: int| 0 <= k < bound.len() ==> binds(list, k as nat, #[trigger] bound[k]),
        list.len() == bound.len() + set.len() + 1,
        list.last() == last,
        forall|k: int| 0 <= k < list.len() - 1 ==> !is_launch(#[trigger] list[k]),
{
    assert forall|k: int| 0 <= k < set.len() implies sets(
        list,
        i,
        (#[trigger] set[k]).0,
        set[k].1,
    ) by {
        let c = CommandModel::Uniform {
            key: i.key,
            program: i.program->0,
            name: set[k].0,
            value: set[k].1,
        };
        assert(list[bound.len() + k] == c);
        assert forall|j: int|
            0 <= j < list.len() && names_uniform(#[trigger] list[j], set[k].0) implies list[j]
            == c by {
            if bound.len() <= j < bound.len() + set.len() {
                let b = j - bound.len();
                assert(list[j]->name == set[b].0);
                if b < k {
                    assert(set[b].0 != set[k].0);
                } else if k < b {
                    assert(set[k].0 != set[b].0);
                }
            }
        }
    }
    assert forall|k: int| 0 <= k < bound.len() implies binds(
        list,
        k as nat,
        #[trigger] bound[k],
    ) by {
        assert(list[k] == CommandModel::BindTexture { unit: k as nat, texture: bound[k] });
        assert(is_launch(list[list.len() - 1]));
    }
}

proof fn lemma_samples(
    list: Seq<CommandModel>,
    i: Inputs,
    name: Seq<char>,
    unit: nat,
    texture: glow::NativeTexture,
)
    requires
        unit < 0x8000_0000,
        sets(list, i, name, UniformModel::Int(unit as i32)),
        binds(list, unit, texture),
    ensures
        samples(list, i, name, texture),
{
}

/// The single piece of work of a pass.
proof fn lemma_launch(i: Inputs, size: (u32, u32)) -> (last: CommandModel)
    ensures
        passes::launch(i, size) == seq![last],
        is_launch(last),
        i.variant == Variant::Fragment ==> last is Draw,
        i.variant == Variant::Compute ==> {
            &&& last is Dispatch
            &&& size.0 <= 8 * last->x < size.0 + 8
            &&& size.1 <= 8 * last->y < size.1 + 8
            &&& last->z == 1
        },
{
    passes::launch(i, size)[0]
}

/// Convert samples depth and velocity, knows the render size, and gets the
/// reprojection with rows and columns swapped. It covers the render size.
pub proof fn convert_is_given(i: Inputs)
    requires
        i.program is Some,
        i.reads.len() == 2,
    ensures
        ({
            let list = Stage::Convert(Convert).work(i);
            &&& samples(list, i, "u_depth"@, i.reads[0])
            &&& samples(list, i, "u_velocity"@, i.reads[1])
            &&& sets(
                list,
                i,
                "u_render_size"@,
                UniformModel::Pair(i.params.render_size@[0], i.params.render_size@[1]),
            )
            &&& sets(
                list,
                i,
                "u_render_rcp"@,
                UniformModel::Pair(i.params.render_size_rcp@[0], i.params.render_size_rcp@[1]),
            )
            &&& exists|m: Seq<Single>|
                {
                    &&& #[trigger] sets(list, i, "u_clip_to_prev"@, UniformModel::Matrix(m))
                    &&& m.len() == 16
                    &&& forall|row: int, col: int|
                        0 <= row < 4 && 0 <= col < 4 ==> #[trigger] m[4 * col + row]
                            == i.params.clip_to_prev_clip@[4 * row + col]
                }
            &&& sets(list, i, "u_fov_hor"@, UniformModel::Float(i.params.camera_fov_hor))
            &&& covers(list, i.variant, i.render_size)
        }),
{
    reveal_strlit("u_depth");
    reveal_strlit("u_velocity");
    reveal_strlit("u_render_size");
    reveal_strlit("u_render_rcp");
    reveal_strlit("u_clip_to_prev");
    reveal_strlit("u_fov_hor");
    let list = Stage::Convert(Convert).work(i);
    let last = lemma_launch(i, i.render_size);
    let m = crate::mat4::transposed(i.params.clip_to_prev_clip@);
    let set = seq![
        ("u_depth"@, UniformModel::Int(0)),
        ("u_velocity"@, UniformModel::Int(1)),
        (
            "u_render_size"@,
            UniformModel::Pair(i.params.render_size@[0], i.params.render_size@[1]),
        ),
        (
            "u_render_rcp"@,
            UniformModel::Pair(i.params.render_size_rcp@[0], i.params.render_size_rcp@[1]),
        ),
        ("u_clip_to_prev"@, UniformModel::Matrix(m)),
        ("u_fov_hor"@, UniformModel::Float(i.params.camera_fov_hor)),
    ];
    assert(list =~= laid_out(i, i.reads, set, last));
    assert(set[0].0.len() == 7 && set[1].0.len() == 10 && set[2].0.len() == 13
        && set[3].0.len() == 12 && set[4].0.len() == 14 && set[5].0.len() == 9);
    assert forall|a: int, b: int| 0 <= a < b < set.len() implies (#[trigger] set[a]).0 != (
    #[trigger] set[b]).0 by {
        assert(a == 0 || a == 1 || a == 2 || a == 3 || a == 4);
        assert(b == 1 || b == 2 || b == 3 || b == 4 || b == 5);
    }
    lemma_laid_out(list, i, i.reads, set, last);
    assert(binds(list, 0, i.reads[0]) && binds(list, 1, i.reads[1]));
    assert(set[0].0 == "u_depth"@ && set[1].0 == "u_velocity"@ && set[2].0 == "u_render_size"@
        && set[3].0 == "u_render_rcp"@ && set[4].0 == "u_clip_to_prev"@ && set[5].0
        == "u_fov_hor"@);
    lemma_samples(list, i, "u_depth"@, 0, i.reads[0]);
    lemma_samples(list, i, "u_velocity"@, 1, i.reads[1]);
    assert(sets(list, i, "u_clip_to_prev"@, UniformModel::Matrix(m)));
    assert forall|row: int, col: int| 0 <= row < 4 && 0 <= col < 4 implies #[trigger] m[4 * col
        + row] == i.params.clip_to_prev_clip@[4 * row + col] by {
        assert((4 * col + row) % 4 == row && (4 * col + row) / 4 == col);
    }
}

/// Activate samples `data`, the scene and the luma history, knows the render
/// size, and is told of a reset. It covers the render size.
#[verifier::rlimit(40)]
pub proof fn activate_is_given(i: Inputs)
    requires
        i.program is Some,
        i.reads.len() == 3,
    ensures
        ({
            let list = Stage::Activate(Activate).work(i);
            &&& samples(list, i, "u_data"@, i.reads[0])
            &&& samples(list, i, "u_color"@, i.reads[1])
            &&& samples(list, i, "u_luma_prev"@, i.reads[2])
            &&& sets(
                list,
                i,
                "u_render_size"@,
                UniformModel::Pair(i.params.render_size@[0], i.params.render_size@[1]),
            )
            &&& sets(
                list,
                i,
                "u_render_rcp"@,
                UniformModel::Pair(i.params.render_size_rcp@[0], i.params.render_size_rcp@[1]),
            )
            &&& i.params.reset == 0 ==> sets(
                list,
                i,
                "u_reset"@,
                UniformModel::Float(Single { bits: 0 }),
            )
            &&& i.params.reset == 1 ==> sets(
                list,
                i,
                "u_reset"@,
                UniformModel::Float(Single { bits: 0x3F80_0000 }),
            )
            &&& sets(list, i, "u_fov_hor"@, UniformModel::Float(i.params.camera_fov_hor))
            &&& covers(list, i.variant, i.render_size)
        }),
{
    reveal_strlit("u_data");
    reveal_strlit("u_color");
    reveal_strlit("u_luma_prev");
    reveal_strlit("u_render_size");
    reveal_strlit("u_render_rcp");
    reveal_strlit("u_reset");
    reveal_strlit("u_fov_hor");
    let list = Stage::Activate(Activate).work(i);
    let last = lemma_launch(i, i.render_size);
    let reset = single::of_u32(i.params.reset);
    let set = seq![
        ("u_data"@, UniformModel::Int(0)),
        ("u_color"@, UniformModel::Int(1)),
        ("u_luma_prev"@, UniformModel::Int(2)),
        (
            "u_render_size"@,
            UniformModel::Pair(i.params.render_size@[0], i.params.render_size@[1]),
        ),
        (
            "u_render_rcp"@,
            UniformModel::Pair(i.params.render_size_rcp@[0], i.params.render_size_rcp@[1]),
        ),
        ("u_reset"@, UniformModel::Float(reset)),
        ("u_fov_hor"@, UniformModel::Float(i.params.camera_fov_hor)),
    ];
    assert("u_color"@[2] == 'c' && "u_reset"@[2] == 'r');
    assert(list =~= laid_out(i, i.reads, set, last));
    assert(set[0].0.len() == 6 && set[1].0.len() == 7 && set[2].0.len() == 11
        && set[3].0.len() == 13 && set[4].0.len() == 12 && set[5].0.len() == 7
        && set[6].0.len() == 9);
    assert forall|a: int, b: int| 0 <= a < b < set.len() implies (#[trigger] set[a]).0 != (
    #[trigger] set[b]).0 by {
        assert(a == 0 || a == 1 || a == 2 || a == 3 || a == 4 || a == 5);
        assert(b == 1 || b == 2 || b == 3 || b == 4 || b == 5 || b == 6);
    }
    lemma_laid_out(list, i, i.reads, set, last);
    assert(binds(list, 0, i.reads[0]) && binds(list, 1, i.reads[1]) && binds(list, 2, i.reads[2]));
    assert(set[0].0 == "u_data"@ && set[1].0 == "u_color"@ && set[2].0 == "u_luma_prev"@
        && set[3].0 == "u_render_size"@ && set[4].0 == "u_render_rcp"@ && set[5].0 == "u_reset"@
        && set[6].0 == "u_fov_hor"@);
    lemma_samples(list, i, "u_data"@, 0, i.reads[0]);
    lemma_samples(list, i, "u_color"@, 1, i.reads[1]);
    lemma_samples(list, i, "u_luma_prev"@, 2, i.reads[2]);
    if i.params.reset <= 1 {
        single::a_flag_converts_exactly(i.params.reset);
    }
}

/// Upscale samples the scene, `data` and the history, knows both sizes and the
/// jitter, is told of a reset and of the least share of the new frame, and
/// uses all taps exactly when the camera has been still for two frames or
/// more. It covers the display size.
#[verifier::rlimit(40)]
pub proof fn upscale_is_given(i: Inputs)
    requires
        i.program is Some,
        i.reads.len() == 3,
    ensures
        ({
            let list = Stage::Upscale(Upscale).work(i);
            &&& samples(list, i, "u_color"@, i.reads[0])
            &&& samples(list, i, "u_data"@, i.reads[1])
            &&& samples(list, i, "u_history"@, i.reads[2])
            &&& sets(
                list,
                i,
                "u_render_size"@,
                UniformModel::Pair(i.params.render_size@[0], i.params.render_size@[1]),
            )
            &&& sets(
                list,
                i,
                "u_render_rcp"@,
                UniformModel::Pair(i.params.render_size_rcp@[0], i.params.render_size_rcp@[1]),
            )
            &&& sets(
                list,
                i,
                "u_display_size"@,
                UniformModel::Pair(i.params.display_size@[0], i.params.display_size@[1]),
            )
            &&& sets(
                list,
                i,
                "u_display_rcp"@,
                UniformModel::Pair(i.params.display_size_rcp@[0], i.params.display_size_rcp@[1]),
            )
            &&& sets(
                list,
                i,
                "u_jitter"@,
                UniformModel::Pair(i.params.jitter@[0], i.params.jitter@[1]),
            )
            &&& i.params.reset == 0 ==> sets(
                list,
                i,
                "u_reset"@,
                UniformModel::Float(Single { bits: 0 }),
            )
            &&& i.params.reset == 1 ==> sets(
                list,
                i,
                "u_reset"@,
                UniformModel::Float(Single { bits: 0x3F80_0000 }),
            )
            &&& sets(list, i, "u_min_lerp"@, UniformModel::Float(i.params.min_lerp_contrib))
            &&& i.params.same_camera_frames >= 2 ==> sets(
                list,
                i,
                "u_full_taps"@,
                UniformModel::Float(Single { bits: 0x3F80_0000 }),
            )
            &&& i.params.same_camera_frames < 2 ==> sets(
                list,
                i,
                "u_full_taps"@,
                UniformModel::Float(Single { bits: 0 }),
            )
            &&& covers(list, i.variant, i.display_size)
        }),
{
    reveal_strlit("u_color");
    reveal_strlit("u_data");
    reveal_strlit("u_history");
    reveal_strlit("u_render_size");
    reveal_strlit("u_render_rcp");
    reveal_strlit("u_display_size");
    reveal_strlit("u_display_rcp");
    reveal_strlit("u_jitter");
    reveal_strlit("u_reset");
    reveal_strlit("u_min_lerp");
    reveal_strlit("u_full_taps");
    let list = Stage::Upscale(Upscale).work(i);
    let last = lemma_launch(i, i.display_size);
    let reset = single::of_u32(i.params.reset);
    let full = passes::upscale::full_taps(i.params.same_camera_frames);
    let set = seq![
        ("u_color"@, UniformModel::Int(0)),
        ("u_data"@, UniformModel::Int(1)),
        ("u_history"@, UniformModel::Int(2)),
        (
            "u_render_size"@,
            UniformModel::Pair(i.params.render_size@[0], i.params.render_size@[1]),
        ),
        (
            "u_render_rcp"@,
            UniformModel::Pair(i.params.render_size_rcp@[0], i.params.render_size_rcp@[1]),
        ),
        (
            "u_display_size"@,
            UniformModel::Pair(i.params.display_size@[0], i.params.display_size@[1]),
        ),
        (
            "u_display_rcp"@,
            UniformModel::Pair(i.params.display_size_rcp@[0], i.params.display_size_rcp@[1]),
        ),
        ("u_jitter"@, UniformModel::Pair(i.params.jitter@[0], i.params.jitter@[1])),
        ("u_reset"@, UniformModel::Float(reset)),
        ("u_min_lerp"@, UniformModel::Float(i.params.min_lerp_contrib)),
        ("u_full_taps"@, UniformModel::Float(full)),
    ];
    assert("u_color"@[2] == 'c' && "u_reset"@[2] == 'r');
    assert("u_render_size"@[2] == 'r' && "u_display_rcp"@[2] == 'd');
    assert(list =~= laid_out(i, i.reads, set, last));
    assert(set[0].0.len() == 7 && set[1].0.len() == 6 && set[2].0.len() == 9
        && set[3].0.len() == 13 && set[4].0.len() == 12 && set[5].0.len() == 14
        && set[6].0.len() == 13 && set[7].0.len() == 8 && set[8].0.len() == 7
        && set[9].0.len() == 10 && set[10].0.len() == 11);
    assert forall|a: int, b: int| 0 <= a < b < set.len() implies (#[trigger] set[a]).0 != (
    #[trigger] set[b]).0 by {
        assert(a == 0 || a == 1 || a == 2 || a == 3 || a == 4 || a == 5 || a == 6 || a == 7
            || a == 8 || a == 9);
        assert(b == 1 || b == 2 || b == 3 || b == 4 || b == 5 || b == 6 || b == 7 || b == 8
            || b == 9 || b == 10);
    }
    lemma_laid_out(list, i, i.reads, set, last);
    assert(binds(list, 0, i.reads[0]) && binds(list, 1, i.reads[1]) && binds(list, 2, i.reads[2]));
    assert(set[0].0 == "u_color"@ && set[1].0 == "u_data"@ && set[2].0 == "u_history"@ && set[3].0
        == "u_render_size"@ && set[4].0 == "u_render_rcp"@ && set[5].0 == "u_display_size"@
        && set[6].0 == "u_display_rcp"@ && set[7].0 == "u_jitter"@ && set[8].0 == "u_reset"@
        && set[9].0 == "u_min_lerp"@ && set[10].0 == "u_full_taps"@);
    lemma_samples(list, i, "u_color"@, 0, i.reads[0]);
    lemma_samples(list, i, "u_data"@, 1, i.reads[1]);
    lemma_samples(list, i, "u_history"@, 2, i.reads[2]);
    if i.params.reset <= 1 {
        single::a_flag_converts_exactly(i.params.reset);
    }
}

/// A camera that keeps still never loses the full set of taps again.
pub proof fn a_still_camera_keeps_its_taps(i: Inputs, later: Inputs)
    requires
        i.program is Some,
        i.reads.len() == 3,
        later.program is Some,
        later.reads.len() == 3,
        i.params.same_camera_frames <= later.params.same_camera_frames,
        sets(
            Stage::Upscale(Upscale).work(i),
            i,
            "u_full_taps"@,
            UniformModel::Float(Single { bits: 0x3F80_0000 }),
        ),
    ensures
        sets(
            Stage::Upscale(Upscale).work(later),
            later,
            "u_full_taps"@,
            UniformModel::Float(Single { bits: 0x3F80_0000 }),
        ),
{
    upscale_is_given(i);
    upscale_is_given(later);
    let list = Stage::Upscale(Upscale).work(i);
    let on = UniformModel::Float(Single { bits: 0x3F80_0000 });
    let c = CommandModel::Uniform {
        key: i.key,
        program: i.program->0,
        name: "u_full_taps"@,
        value: on,
    };
    let k = choose|k: int| 0 <= k < list.len() && list[k] == c;
    assert(names_uniform(list[k], "u_full_taps"@));
}

/// Sharpen samples the unsharpened frame, knows the display size, and gets the
/// sharpness in force. It covers the display size.
pub proof fn sharpen_is_given(i: Inputs)
    requires
        i.program is Some,
        i.reads.len() == 1,
    ensures
        ({
            let list = Stage::Sharpen(Sharpen).work(i);
            &&& samples(list, i, "u_image"@, i.reads[0])
            &&& sets(
                list,
                i,
                "u_display_size"@,
                UniformModel::Pair(i.params.display_size@[0], i.params.display_size@[1]),
            )
            &&& sets(
                list,
                i,
                "u_display_rcp"@,
                UniformModel::Pair(i.params.display_size_rcp@[0], i.params.display_size_rcp@[1]),
            )
            &&& sets(list, i, "u_sharp"@, UniformModel::Float(i.sharpness))
            &&& covers(list, i.variant, i.display_size)
        }),
{
    reveal_strlit("u_image");
    reveal_strlit("u_display_size");
    reveal_strlit("u_display_rcp");
    reveal_strlit("u_sharp");
    let list = Stage::Sharpen(Sharpen).work(i);
    let last = lemma_launch(i, i.display_size);
    let set = seq![
        ("u_image"@, UniformModel::Int(0)),
        (
            "u_display_size"@,
            UniformModel::Pair(i.params.display_size@[0], i.params.display_size@[1]),
        ),
        (
            "u_display_rcp"@,
            UniformModel::Pair(i.params.display_size_rcp@[0], i.params.display_size_rcp@[1]),
        ),
        ("u_sharp"@, UniformModel::Float(i.sharpness)),
    ];
    assert("u_image"@[2] == 'i' && "u_sharp"@[2] == 's');
    assert(list =~= laid_out(i, i.reads, set, last));
    assert(set[0].0.len() == 7 && set[1].0.len() == 14 && set[2].0.len() == 13
        && set[3].0.len() == 7);
    assert forall|a: int, b: int| 0 <= a < b < set.len() implies (#[trigger] set[a]).0 != (
    #[trigger] set[b]).0 by {
        assert(a == 0 || a == 1 || a == 2);
        assert(b == 1 || b == 2 || b == 3);
    }
    lemma_laid_out(list, i, i.reads, set, last);
    assert(binds(list, 0, i.reads[0]));
    assert(set[0].0 == "u_image"@ && set[1].0 == "u_display_size"@ && set[2].0
        == "u_display_rcp"@ && set[3].0 == "u_sharp"@);
    lemma_samples(list, i, "u_image"@, 0, i.reads[0]);
}

/// A frame of the default pipeline asks for all taps once the camera has been
/// still for two frames or more, and for the reduced set before.
pub proof fn frames_use_full_taps(m: PipelineModel<Stage>, params: IgsrParamsFfi)
    requires
        m.wf(),
        passes::stage::is_default(m.passes),
        m.enabled[2],
    ensures
        params.same_camera_frames >= 2 ==> exists|key: nat, program: glow::NativeProgram|
            m.frame_end(params).commands.contains(#[trigger] taps_setting(key, program, 0x3F80_0000)),
        params.same_camera_frames < 2 ==> exists|key: nat, program: glow::NativeProgram|
            m.frame_end(params).commands.contains(#[trigger] taps_setting(key, program, 0)),
{
    let at = laws::frame::enabled_passes_are_recorded(m, params, 2);
    let table = m.after_passes(params, 2).table;
    let i = m.inputs_of(2, params, table);
    laws::enabled_passes_have_programs(m, 2);
    laws::frame::passes_see_the_frame(m, 2, params, table, 0);
    assert(m.passes[2] == Stage::Upscale(Upscale)) by {
        match m.passes[2] {
            Stage::Upscale(u) => {
                assert(u == Upscale);
            },
            _ => {},
        }
    }
    upscale_is_given(i);
    let work = m.passes[2].work(i);
    let bits: u32 = if params.same_camera_frames >= 2 {
        0x3F80_0000
    } else {
        0
    };
    let c = taps_setting(i.key, i.program->0, bits);
    assert(work.contains(c));
    let k = choose|k: int| 0 <= k < work.len() && work[k] == c;
    let all = m.frame_end(params).commands;
    assert(all.subrange(at, at + work.len())[k] == c);
    assert(all[at + k] == c);
}

/// The command that tells upscale whether to use all taps.
pub open spec fn taps_setting(
    key: nat,
    program: glow::NativeProgram,
    bits: u32,
) -> CommandModel {
    CommandModel::Uniform {
        key,
        program,
        name: "u_full_taps"@,
        value: UniformModel::Float(Single { bits }),
    }
}

} // verus!
