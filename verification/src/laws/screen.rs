//! What the options ask for, what is drawn and shown, and what a dump holds.

use vstd::prelude::*;

#[allow(unused_imports)]
use crate::pipeline::PipelineModel;
#[allow(unused_imports)]
use crate::scene::SceneModel;
#[allow(unused_imports)]
use crate::view::{Blit, ViewMode};
use crate::{image, mat4, options, pipeline, resources, scene, text, view};

verus! {

/// One texture over the whole window, drawn with `program`.
pub open spec fn fills(
    list: Seq<Blit>,
    texture: glow::NativeTexture,
    program: glow::NativeProgram,
    width: u32,
    height: u32,
) -> bool {
    &&& list.len() == 1
    &&& list[0].texture == texture
    &&& list[0].program == program
    &&& list[0].x == 0 && list[0].y == 0
    &&& list[0].width == width && list[0].height == height
}

/// The upscaled view shows the frame, or the frame before sharpening while
/// that is asked for; the native view shows the scene; the split view shows
/// the scene on the left and the frame on the right.
pub proof fn plain_views_show(
    m: PipelineModel<crate::passes::stage::Stage>,
    show_pre: bool,
    output: glow::NativeTexture,
    width: u32,
    height: u32,
)
    ensures
        !show_pre ==> fills(
            view::view_blits(m, ViewMode::Upscaled, show_pre, output, width, height),
            output,
            m.blit_prog,
            width,
            height,
        ),
        show_pre && resources::read_of(m.table, "history"@) is Some ==> fills(
            view::view_blits(m, ViewMode::Upscaled, show_pre, output, width, height),
            resources::read_of(m.table, "history"@)->0,
            m.blit_prog,
            width,
            height,
        ),
        fills(
            view::view_blits(m, ViewMode::Native, show_pre, output, width, height),
            m.scene.color,
            m.blit_prog,
            width,
            height,
        ),
        ({
            let b = view::view_blits(m, ViewMode::Split, show_pre, output, width, height);
            &&& b.len() == 2
            &&& b[0].texture == m.scene.color && b[1].texture == output
            &&& b[0].program == m.blit_prog && b[1].program == m.blit_prog
            &&& b[0].x == 0 && b[0].y == 0 && b[1].y == 0
            &&& b[1].x == b[0].width
            &&& b[0].width == width / 2
            &&& b[0].width + b[1].width == width
            &&& b[0].height == height && b[1].height == height
        }),
{
}

/// The label of a debug view.
pub open spec fn debug_label(v: ViewMode) -> Option<Seq<char>> {
    match v {
        ViewMode::Motion => Some("motion"@),
        ViewMode::Luma => Some("luma"@),
        ViewMode::Clip => Some("clip"@),
        _ => None,
    }
}

/// A debug view shows the resource that the first view of its label displays,
/// with that view's program, over the whole window. Where the view was not
/// compiled or its resource is missing, the frame is shown instead. Which side
/// of sharpening is asked for does not matter.
pub proof fn debug_views_show(
    m: PipelineModel<crate::passes::stage::Stage>,
    v: ViewMode,
    show_pre: bool,
    output: glow::NativeTexture,
    width: u32,
    height: u32,
    i: int,
)
    requires
        v is Motion || v is Luma || v is Clip,
    ensures
        ({
            let b = view::view_blits(m, v, show_pre, output, width, height);
            let label = debug_label(v)->0;
            let first = 0 <= i < m.views.len() && m.views[i].label == label && forall|j: int|
                0 <= j < i ==> (#[trigger] m.views[j]).label != label;
            &&& first && resources::read_of(m.table, m.views[i].source) is Some ==> fills(
                b,
                resources::read_of(m.table, m.views[i].source)->0,
                m.views[i].program,
                width,
                height,
            )
            &&& first && resources::read_of(m.table, m.views[i].source) is None ==> fills(
                b,
                output,
                m.blit_prog,
                width,
                height,
            )
            &&& (forall|j: int| 0 <= j < m.views.len() ==> (#[trigger] m.views[j]).label != label)
                ==> fills(b, output, m.blit_prog, width, height)
        }),
{
    let label = debug_label(v)->0;
    pipeline::view_position_finds(m.views, label);
}

/// What the options mean: a switch is on exactly when it is among the
/// arguments, in whatever place.
pub proof fn switches(args: Seq<Seq<char>>)
    ensures
        options::options_of(args).force_fallback == (args.contains("--force-fallback"@)
            || args.contains("-f"@)),
        options::options_of(args).three_pass == args.contains("--three-pass"@),
        options::options_of(args).selftest == args.contains("--selftest"@),
        options::options_of(args).debug_events == args.contains("--debug-events"@),
{
    options::flag_at_finds(args, "--force-fallback"@);
    options::flag_at_finds(args, "-f"@);
    options::flag_at_finds(args, "--three-pass"@);
    options::flag_at_finds(args, "--selftest"@);
    options::flag_at_finds(args, "--debug-events"@);
}

/// Position `i` is where the first `flag` stands.
pub open spec fn first_at(args: Seq<Seq<char>>, flag: Seq<char>, i: int) -> bool {
    &&& 0 <= i < args.len()
    &&& args[i] == flag
    &&& forall|j: int| 0 <= j < i ==> #[trigger] args[j] != flag
}

proof fn lemma_first_at(args: Seq<Seq<char>>, flag: Seq<char>, i: int)
    requires
        first_at(args, flag, i),
    ensures
        options::flag_at(args, flag) == Some(i),
{
    options::flag_at_finds(args, flag);
    assert(args.contains(args[i]));
    match options::flag_at(args, flag) {
        Some(k) => {
            if k < i {
                assert(args[k] != flag);
            }
        },
        None => {},
    }
}

/// The value of an option is the argument behind its first occurrence. Without
/// the option, or with nothing behind it, there is no value, and the upscaled
/// view is shown.
pub proof fn values(args: Seq<Seq<char>>, i: int)
    ensures
        first_at(args, "--dump"@, i) && i + 1 < args.len() ==> options::options_of(args).dump_path
            == Some(args[i + 1]),
        first_at(args, "--spin"@, i) && i + 1 < args.len() ==> options::options_of(args).spin
            == Some(args[i + 1]),
        first_at(args, "--sharp"@, i) && i + 1 < args.len() ==> options::options_of(args).sharp
            == Some(args[i + 1]),
        first_at(args, "--scale"@, i) && i + 1 < args.len() ==> options::options_of(args).scale
            == Some(args[i + 1]),
        first_at(args, "--view"@, i) && i + 1 < args.len() ==> {
            let v = options::options_of(args).view;
            &&& v is Native == (args[i + 1] == "native"@)
            &&& v is Split == (args[i + 1] == "split"@)
            &&& v is Motion == (args[i + 1] == "motion"@)
            &&& v is Luma == (args[i + 1] == "luma"@)
            &&& v is Clip == (args[i + 1] == "clip"@)
        },
        !args.contains("--dump"@) || first_at(args, "--dump"@, args.len() - 1)
            ==> options::options_of(args).dump_path is None,
        !args.contains("--spin"@) || first_at(args, "--spin"@, args.len() - 1)
            ==> options::options_of(args).spin is None,
        !args.contains("--sharp"@) || first_at(args, "--sharp"@, args.len() - 1)
            ==> options::options_of(args).sharp is None,
        !args.contains("--scale"@) || first_at(args, "--scale"@, args.len() - 1)
            ==> options::options_of(args).scale is None,
        !args.contains("--view"@) || first_at(args, "--view"@, args.len() - 1)
            ==> options::options_of(args).view is Upscaled,
{
    reveal_strlit("native");
    reveal_strlit("split");
    reveal_strlit("motion");
    reveal_strlit("luma");
    reveal_strlit("clip");
    assert("native"@[0] == 'n' && "motion"@[0] == 'm');
    assert("luma"@[0] == 'l' && "clip"@[0] == 'c');
    assert("native"@.len() == 6 && "split"@.len() == 5 && "motion"@.len() == 6 && "luma"@.len() == 4
        && "clip"@.len() == 4);
    lemma_values(args, "--dump"@, i);
    lemma_values(args, "--spin"@, i);
    lemma_values(args, "--sharp"@, i);
    lemma_values(args, "--scale"@, i);
    lemma_values(args, "--view"@, i);
}

proof fn lemma_values(args: Seq<Seq<char>>, flag: Seq<char>, i: int)
    ensures
        first_at(args, flag, i) && i + 1 < args.len() ==> options::value_of(args, flag) == Some(
            args[i + 1],
        ),
        !args.contains(flag) || first_at(args, flag, args.len() - 1) ==> options::value_of(
            args,
            flag,
        ) is None,
{
    if first_at(args, flag, i) {
        lemma_first_at(args, flag, i);
    }
    if first_at(args, flag, args.len() - 1) {
        lemma_first_at(args, flag, args.len() - 1);
    }
    options::flag_at_finds(args, flag);
    if options::flag_at(args, flag) is Some {
        assert(args.contains(args[options::flag_at(args, flag)->0]));
    }
}

/// Every character of `s` is a digit.
pub open spec fn all_digits(s: Seq<char>) -> bool {
    forall|i: int| 0 <= i < s.len() ==> text::is_digit(#[trigger] s[i])
}

/// A dump starts with the magic number, its width and height in decimal, and
/// the largest level, each as ASCII text.
pub proof fn dumps_name_their_size(px: Seq<u8>, w: u32, h: u32)
    ensures
        exists|a: Seq<char>, b: Seq<char>|
            {
                &&& #[trigger] image::ascii("P6\n"@ + a + " "@ + b + "\n255\n"@) == image::pixmap(
                    px,
                    w,
                    h,
                ).take(("P6\n"@ + a + " "@ + b + "\n255\n"@).len() as int)
                &&& all_digits(a) && all_digits(b) && a.len() > 0 && b.len() > 0
                &&& text::digits_value(a) == w
                &&& text::digits_value(b) == h
            },
{
    let (a, b) = (text::decimal(w as nat), text::decimal(h as nat));
    text::decimal_reads_back(w as nat);
    text::decimal_reads_back(h as nat);
    let head = "P6\n"@ + a + " "@ + b + "\n255\n"@;
    assert(image::ascii(head) =~= image::pixmap(px, w, h).take(head.len() as int));
}

/// Element `(row, column)` of a transposed matrix is element `(column, row)` of
/// the matrix, whichever way both are stored.
pub proof fn transposing_swaps_rows_and_columns<T>(m: Seq<T>, row: int, col: int)
    requires
        m.len() == 16,
        0 <= row < 4,
        0 <= col < 4,
    ensures
        mat4::transposed(m).len() == 16,
        mat4::transposed(m)[4 * row + col] == m[4 * col + row],
{
    assert((4 * row + col) % 4 == col && (4 * row + col) / 4 == row);
}

/// What does not hold the replaced text stays as it is.
pub proof fn nothing_to_replace(s: Seq<char>, pat: Seq<char>, with: Seq<char>)
    requires
        forall|i: int| 0 <= i < s.len() ==> !#[trigger] text::starts_with(s.skip(i), pat),
    ensures
        text::replace(s, pat, with) == s,
    decreases s.len(),
{
    if s.len() > 0 && pat.len() > 0 {
        assert(s.skip(0) =~= s);
        assert(!text::starts_with(s.skip(0), pat));
        let t = s.skip(1);
        assert forall|i: int| 0 <= i < t.len() implies !#[trigger] text::starts_with(
            t.skip(i),
            pat,
        ) by {
            assert(t.skip(i) =~= s.skip(i + 1));
            assert(!text::starts_with(s.skip(i + 1), pat));
        }
        nothing_to_replace(t, pat, with);
        assert(seq![s[0]] + t =~= s);
    }
}

/// What stands before the first replaced text stays as it is, the text itself
/// is replaced, and replacing goes on behind it.
pub proof fn the_first_is_replaced(s: Seq<char>, pat: Seq<char>, with: Seq<char>, at: int)
    requires
        pat.len() > 0,
        0 <= at,
        at + pat.len() <= s.len(),
        text::starts_with(s.skip(at), pat),
        forall|i: int| 0 <= i < at ==> !#[trigger] text::starts_with(s.skip(i), pat),
    ensures
        text::replace(s, pat, with) == s.take(at) + with + text::replace(
            s.skip(at + pat.len()),
            pat,
            with,
        ),
    decreases at,
{
    if at == 0 {
        assert(s.skip(0) =~= s);
        assert(s.take(0) + with =~= with);
    } else {
        assert(s.skip(0) =~= s);
        assert(!text::starts_with(s.skip(0), pat));
        let t = s.skip(1);
        assert forall|i: int| 0 <= i < at - 1 implies !#[trigger] text::starts_with(
            t.skip(i),
            pat,
        ) by {
            assert(t.skip(i) =~= s.skip(i + 1));
            assert(!text::starts_with(s.skip(i + 1), pat));
        }
        assert(t.skip(at - 1) =~= s.skip(at));
        the_first_is_replaced(t, pat, with, at - 1);
        let rest = text::replace(s.skip(at + pat.len()), pat, with);
        assert(t.skip(at - 1 + pat.len()) =~= s.skip(at + pat.len()));
        assert(seq![s[0]] + (t.take(at - 1) + with + rest) =~= s.take(at) + with + rest);
    }
}

/// The dump before sharpening stands beside the dump: `name.ppm` goes with
/// `name_pre.ppm`.
pub proof fn the_unsharpened_dump_stands_beside_it(name: Seq<char>)
    requires
        forall|i: int|
            0 <= i < name.len() ==> !#[trigger] text::starts_with((name + ".ppm"@).skip(i), ".ppm"@),
    ensures
        image::pre_name(name + ".ppm"@) == name + "_pre.ppm"@,
{
    reveal_strlit(".ppm");
    let s = name + ".ppm"@;
    let n = name.len() as int;
    assert(s.skip(n) =~= ".ppm"@);
    assert(".ppm"@.take(4) =~= ".ppm"@);
    the_first_is_replaced(s, ".ppm"@, "_pre.ppm"@, n);
    assert(s.skip(n + 4).len() == 0);
    assert(s.take(n) =~= name);
    assert(name + "_pre.ppm"@ + text::replace(s.skip(n + 4), ".ppm"@, "_pre.ppm"@) =~= name
        + "_pre.ppm"@);
}

/// The draws of a scene: the floor with its own model, then the cube twice.
/// Nothing has moved in a first frame.
pub proof fn what_the_scene_draws<M>(before: Option<SceneModel<M>>, models: Seq<M>)
    ensures
        ({
            let d = scene::scene_draws(before, models);
            &&& d.len() == 3
            &&& d[0].mesh is Floor && d[1].mesh is Cube && d[2].mesh is Cube
            &&& d[0].model == models[2] && d[1].model == models[0] && d[2].model == models[1]
            &&& before is None ==> d[0].previous is None && d[1].previous is None
                && d[2].previous is None
            &&& before is Some ==> {
                &&& d[0].previous == Some((before->0.vp, before->0.models[2]))
                &&& d[1].previous == Some((before->0.vp, before->0.models[0]))
                &&& d[2].previous == Some((before->0.vp, before->0.models[1]))
            }
        }),
{
}

} // verus!
