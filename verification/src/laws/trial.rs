//! What the self test demands, asks for and reports.

use vstd::prelude::*;

#[allow(unused_imports)]
use crate::selftest::{Action, EventModel, Phase, SelftestModel};
use crate::{selftest, text};

verus! {

/// What fails the test: a fragment shader that does not compile, a framebuffer
/// that is not complete, an error after a draw, a pixel that is not as
/// expected. Nothing else does.
pub proof fn what_fails_the_test(m: SelftestModel, event: EventModel)
    requires
        m.wf(),
        m.phase != Phase::Failed,
    ensures
        (selftest::after(m, event).phase is Failed) == {
            ||| (m.phase is ConvertFragment || m.phase is UpscaleFragment) && event is Refused
            ||| (m.phase is ConvertTarget || m.phase is UpscaleTarget) && event is Target
                && event->Target_0 != 0x8CD5
            ||| (m.phase is ConvertDraw || m.phase is UpscaleDraw) && event is Drawn
                && event->Drawn_0 != 0
            ||| (m.phase is ConvertReadback || m.phase is UpscaleReadback) && event is Pixel
                && !event->Pixel_0
        },
{
}

/// What comes after what, as long as nothing fails. Convert is compiled, probed
/// with both preludes, drawn and read back; then upscale, whose compute shader
/// and that of activate are only probed where a prelude is selected.
pub proof fn what_comes_next(m: SelftestModel, event: EventModel)
    requires
        m.wf(),
        selftest::answers(m.phase, event),
        selftest::after(m, event).phase != Phase::Failed,
    ensures
        ({
            let next = selftest::after(m, event).phase;
            &&& m.phase is ConvertFragment ==> next == Phase::ConvertProbe(0)
            &&& m.phase == Phase::ConvertProbe(0) ==> next == Phase::ConvertProbe(1)
            &&& m.phase == Phase::ConvertProbe(1) ==> next is ConvertTarget
            &&& m.phase is ConvertTarget ==> next is ConvertDraw
            &&& m.phase is ConvertDraw ==> next is ConvertReadback
            &&& m.phase is ConvertReadback ==> next is UpscaleFragment
            &&& m.phase is UpscaleFragment && m.selected is Some ==> next is UpscaleProbe
            &&& m.phase is UpscaleFragment && m.selected is None ==> next is UpscaleTarget
            &&& m.phase is UpscaleProbe ==> next is ActivateProbe
            &&& m.phase is ActivateProbe ==> next is UpscaleTarget
            &&& m.phase is UpscaleTarget ==> next is UpscaleDraw
            &&& m.phase is UpscaleDraw ==> next is UpscaleReadback
            &&& m.phase is UpscaleReadback ==> next is Passed
        }),
{
}

/// An event that does not answer what was asked for changes nothing, and no
/// event changes which preludes are tried.
pub proof fn only_answers_count(m: SelftestModel, event: EventModel)
    requires
        m.wf(),
    ensures
        !selftest::answers(m.phase, event) ==> selftest::after(m, event) == m,
        selftest::after(m, event).preludes == m.preludes,
        selftest::after(m, event).selected == m.selected,
{
}

/// What answers an action.
pub proof fn what_answers(phase: Phase, event: EventModel)
    ensures
        phase is ConvertFragment || phase is ConvertProbe || phase is UpscaleFragment
            || phase is UpscaleProbe || phase is ActivateProbe ==> selftest::answers(phase, event)
            == (event is Compiled || event is Refused),
        phase is ConvertTarget || phase is UpscaleTarget ==> selftest::answers(phase, event) == (
        event is Target),
        phase is ConvertDraw || phase is UpscaleDraw ==> selftest::answers(phase, event) == (
        event is Drawn),
        phase is ConvertReadback || phase is UpscaleReadback ==> selftest::answers(phase, event)
            == (event is Pixel),
        phase is Passed || phase is Failed ==> !selftest::answers(phase, event),
{
}

/// The start: a context below 4.0 fails at once, any other begins with convert.
/// Both preludes are tried, the selected one first, and the first line names
/// the version.
pub proof fn how_the_test_starts(major: u32, minor: u32, advertised: bool)
    ensures
        ({
            let m = selftest::started(major, minor, advertised);
            let new = "#version 430 core\n"@;
            let old = "#version 420 core\n#extension GL_ARB_compute_shader : require\n"@;
            let version = "GL "@ + text::decimal(major as nat) + "."@ + text::decimal(minor as nat);
            &&& m.phase is Failed == (major < 4)
            &&& m.phase is ConvertFragment == (major >= 4)
            &&& !m.probed
            &&& major > 4 || (major == 4 && minor >= 3) ==> m.selected == Some(new)
            &&& major == 4 && minor < 3 && advertised ==> m.selected == Some(old)
            &&& major < 4 || (major == 4 && minor < 3 && !advertised) ==> m.selected is None
            &&& m.preludes.len() == 2
            &&& m.preludes.contains(new) && m.preludes.contains(old)
            &&& m.selected is Some ==> m.preludes[0] == m.selected->0
            &&& m.lines == seq![
                version + (if major < 4 {
                    " < 4.0: convert requires GLSL 4.20 (textureGather)"@
                } else {
                    " >= 4.0: convert baseline met"@
                }),
            ]
        }),
{
    reveal_strlit("#version 430 core\n");
    reveal_strlit("#version 420 core\n#extension GL_ARB_compute_shader : require\n");
    let m = selftest::started(major, minor, advertised);
    assert("#version 430 core\n"@.len() == 18);
    assert(m.preludes.contains(m.preludes[0]) && m.preludes.contains(m.preludes[1]));
}

/// What each phase asks for. Probes come with the prelude that they are about.
pub proof fn what_is_asked_for(m: SelftestModel, a: Action)
    requires
        m.wf(),
        selftest::asks(m, a),
    ensures
        m.phase is ConvertFragment == a is CompileConvertFragment,
        m.phase is ConvertProbe == a is ProbeConvert,
        m.phase is ConvertTarget == a is BuildConvertTarget,
        m.phase is ConvertDraw == a is DrawConvert,
        m.phase is ConvertReadback == a is ReadConvert,
        m.phase is UpscaleFragment == a is CompileUpscaleFragment,
        m.phase is UpscaleProbe == a is ProbeUpscale,
        m.phase is ActivateProbe == a is ProbeActivate,
        m.phase is UpscaleTarget == a is BuildUpscaleTarget,
        m.phase is UpscaleDraw == a is DrawUpscale,
        m.phase is UpscaleReadback == a is ReadUpscale,
        (m.phase is Passed || m.phase is Failed) == a is Report,
        a is ProbeConvert ==> a->ProbeConvert_0@ == m.preludes[m.phase->ConvertProbe_0 as int],
        a is ProbeUpscale ==> Some(a->ProbeUpscale_0@) == m.selected,
        a is ProbeActivate ==> Some(a->ProbeActivate_0@) == m.selected,
{
}

/// The report grows at its end as long as nothing fails; a failure is reported
/// alone.
pub proof fn reports_grow(m: SelftestModel, event: EventModel, i: int)
    requires
        m.wf(),
        m.phase != Phase::Failed,
    ensures
        ({
            let n = selftest::after(m, event);
            &&& n.phase != Phase::Failed ==> m.lines.len() <= n.lines.len() <= m.lines.len() + 3
            &&& n.phase != Phase::Failed && 0 <= i < m.lines.len() ==> n.lines[i] == m.lines[i]
            &&& n.phase == Phase::Failed ==> n.lines.len() == 1
        }),
{
}

/// A failure says what failed, with the log, the code or the pixel that it
/// failed with.
pub proof fn failures_name_their_cause(m: SelftestModel, event: EventModel)
    requires
        m.wf(),
        m.phase != Phase::Failed,
        selftest::after(m, event).phase == Phase::Failed,
    ensures
        ({
            let line = selftest::after(m, event).lines[0];
            &&& m.phase is ConvertFragment ==> line == "convert.frag compile FAILED: "@
                + event->Refused_0
            &&& m.phase is UpscaleFragment ==> line == "upscale.frag compile FAILED: "@
                + event->Refused_0
            &&& m.phase is ConvertTarget ==> line == "convert FBO incomplete: 0x"@
                + text::hexadecimal(event->Target_0 as nat)
            &&& m.phase is UpscaleTarget ==> line == "upscale FBO incomplete"@
            &&& m.phase is ConvertDraw ==> line == "GL error after convert draw: 0x"@
                + text::hexadecimal(event->Drawn_0 as nat)
            &&& m.phase is UpscaleDraw ==> line == "GL error after upscale draw: 0x"@
                + text::hexadecimal(event->Drawn_0 as nat)
            &&& m.phase is ConvertReadback ==> line == "convert readback center=("@
                + event->Pixel_1 + "): expected ~(0,0,0,1)"@
            &&& m.phase is UpscaleReadback ==> line == "upscale chain readback=("@ + event->Pixel_1
                + "): expected ~(0.2,0.4,0.6)"@
        }),
{
}

/// A probe is reported with the first line of its prelude and with how it went:
/// well, or with the first line of the log. That no prelude worked is added
/// behind the last probe, and only then.
pub proof fn probes_are_reported(m: SelftestModel, event: EventModel)
    requires
        m.wf(),
        m.phase is ConvertProbe,
        event is Compiled || event is Refused,
    ensures
        ({
            let n = selftest::after(m, event);
            let k = m.phase->ConvertProbe_0;
            let went = if event is Compiled {
                "ok"@
            } else {
                text::first_line_or_mark(event->Refused_0)
            };
            let line = "convert.comp probe ("@ + text::first_line_or_mark(m.preludes[k as int])
                + "...): "@ + went;
            &&& n.probed == (m.probed || event is Compiled)
            &&& n.lines[m.lines.len() as int] == line
            &&& n.lines.len() == m.lines.len() + 1 + (if k == 1 && !n.probed {
                1int
            } else {
                0int
            })
            &&& k == 1 && !n.probed ==> n.lines.last()
                == "convert.comp probe: no compute prelude worked (fragment fallback covers this)"@
        }),
{
}

/// The compute shaders of upscale and activate are reported each in its turn.
pub proof fn later_probes_are_reported(m: SelftestModel, event: EventModel)
    requires
        m.wf(),
        m.phase is UpscaleProbe || m.phase is ActivateProbe,
        event is Compiled || event is Refused,
    ensures
        ({
            let n = selftest::after(m, event);
            let shader = if m.phase is UpscaleProbe {
                "upscale.comp"@
            } else {
                "activate.comp"@
            };
            &&& event is Compiled ==> n.lines == m.lines.push(
                shader + " probe (selected prelude): "@ + "ok"@,
            )
            &&& event is Refused ==> n.lines == m.lines.push(
                shader + " probe (selected prelude): "@ + text::first_line_or_mark(
                    event->Refused_0,
                ),
            ).push(
                shader
                    + " probe: no working prelude (fragment path covers upscale; activate waits for stage 5)"@,
            )
        }),
{
}

/// What is reported of the steps that went well.
pub proof fn successes_are_reported(m: SelftestModel, event: EventModel)
    requires
        m.wf(),
        selftest::answers(m.phase, event),
        selftest::after(m, event).phase != Phase::Failed,
    ensures
        ({
            let lines = selftest::after(m, event).lines;
            &&& m.phase is ConvertFragment ==> lines == m.lines.push("convert.frag compiles: ok"@)
            &&& m.phase is ConvertTarget ==> lines == m.lines.push(
                "convert FBO (RGBA16F, 64x64): complete"@,
            )
            &&& m.phase is ConvertDraw ==> lines == m.lines.push("convert draw: no GL errors"@)
            &&& m.phase is ConvertReadback ==> lines == m.lines.push(
                "convert readback center=("@ + event->Pixel_1 + "): ok"@,
            )
            &&& m.phase is UpscaleFragment ==> lines[m.lines.len() as int]
                == "upscale.frag compiles: ok"@
            &&& m.phase is UpscaleFragment && m.selected is Some ==> lines.len() == m.lines.len()
                + 1
            &&& m.phase is UpscaleFragment && m.selected is None ==> {
                &&& lines.len() == m.lines.len() + 3
                &&& lines[(m.lines.len() + 1) as int]
                    == "upscale.comp"@
                    + " probe: no working prelude (fragment path covers upscale; activate waits for stage 5)"@
                &&& lines[(m.lines.len() + 2) as int]
                    == "activate.comp"@
                    + " probe: no working prelude (fragment path covers upscale; activate waits for stage 5)"@
            }
            &&& m.phase is UpscaleTarget || m.phase is UpscaleDraw ==> lines == m.lines
            &&& m.phase is UpscaleReadback ==> lines == m.lines.push(
                "upscale chain readback center=("@ + event->Pixel_1 + "): ok"@,
            )
        }),
{
}

/// The digits of base sixteen, read from the left.
pub open spec fn hex_value(s: Seq<char>) -> nat
    decreases s.len(),
{
    if s.len() == 0 {
        0
    } else {
        let c = s.last();
        16 * hex_value(s.drop_last()) + if '0' <= c <= '9' {
            (c as nat - '0' as nat) as nat
        } else {
            (c as nat - 'a' as nat + 10) as nat
        }
    }
}

/// A code in base sixteen reads back as itself, in digits and lower-case
/// letters without a leading zero.
pub proof fn codes_read_back(n: nat)
    ensures
        ({
            let s = text::hexadecimal(n);
            &&& hex_value(s) == n
            &&& s.len() > 0
            &&& forall|i: int|
                0 <= i < s.len() ==> '0' <= #[trigger] s[i] <= '9' || 'a' <= s[i] <= 'f'
            &&& n > 0 ==> s[0] != '0'
        }),
    decreases n,
{
    let s = text::hexadecimal(n);
    if n < 16 {
        reveal_with_fuel(hex_value, 2);
        assert(s.drop_last().len() == 0);
    } else {
        codes_read_back(n / 16);
        assert(s.drop_last() =~= text::hexadecimal(n / 16));
        assert(s[0] == text::hexadecimal(n / 16)[0]);
    }
}

/// The first line of a text holds no line feed and begins the text; behind it
/// the text ends, or a line feed follows, with or without a carriage return. Of
/// an empty text it is a question mark.
pub proof fn first_lines(s: Seq<char>)
    ensures
        ({
            let l = text::first_line_or_mark(s);
            &&& s.len() == 0 ==> l == seq!['?']
            &&& s.len() > 0 ==> {
                &&& l.len() <= s.len() && s.take(l.len() as int) == l
                &&& forall|i: int| 0 <= i < l.len() ==> #[trigger] l[i] != '\n'
                &&& {
                    ||| l.len() == s.len()
                    ||| s[l.len() as int] == '\n' && (l.len() > 0 ==> l.last() != '\r')
                    ||| l.len() + 1 < s.len() && s[l.len() as int] == '\r' && s[(l.len() + 1) as int]
                        == '\n'
                }
            }
        }),
{
    let k = lemma_line_end(s, 0);
    text::lemma_line_len(s, k);
}

proof fn lemma_line_end(s: Seq<char>, k: int) -> (r: int)
    requires
        0 <= k <= s.len(),
        forall|i: int| 0 <= i < k ==> #[trigger] s[i] != '\n',
    ensures
        k <= r <= s.len(),
        forall|i: int| 0 <= i < r ==> #[trigger] s[i] != '\n',
        r < s.len() ==> s[r] == '\n',
    decreases s.len() - k,
{
    if k == s.len() || s[k] == '\n' {
        k
    } else {
        lemma_line_end(s, k + 1)
    }
}

} // verus!
