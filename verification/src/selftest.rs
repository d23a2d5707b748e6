//! The GPU self test.
//!
//! The test compiles the shaders and runs convert, then the chain of convert
//! and upscale, on procedural inputs. Each step asks for one GL action and is
//! told how it went. Compute shaders are only probed: what the driver makes
//! of them is reported, but never fails the test.

use vstd::prelude::*;
use vstd::string::StringExecFns;

use crate::backend::gl;
use crate::gpu;
use crate::text;

verus! {

/// Where the test stands.
#[derive(Debug, Clone, Copy, PartialEq, Eq, Structural)]
pub enum Phase {
    ConvertFragment,
    /// Probing convert with the prelude of this index.
    ConvertProbe(usize),
    ConvertTarget,
    ConvertDraw,
    ConvertReadback,
    UpscaleFragment,
    UpscaleProbe,
    ActivateProbe,
    UpscaleTarget,
    UpscaleDraw,
    UpscaleReadback,
    Passed,
    Failed,
}

/// How a GL action went.
#[derive(Debug)]
pub enum Event {
    Compiled,
    /// A compilation failed with this log.
    Refused(String),
    /// The status of a framebuffer.
    Target(u32),
    /// The error state after a draw.
    Drawn(u32),
    /// A read-back pixel: whether it is as expected, and its text.
    Pixel(bool, String),
}

/// What an [`Event`] tells.
pub enum EventModel {
    Compiled,
    Refused(Seq<char>),
    Target(u32),
    Drawn(u32),
    Pixel(bool, Seq<char>),
}

impl View for Event {
    type V = EventModel;

    open spec fn view(&self) -> EventModel {
        match *self {
            Event::Compiled => EventModel::Compiled,
            Event::Refused(log) => EventModel::Refused(log@),
            Event::Target(status) => EventModel::Target(status),
            Event::Drawn(error) => EventModel::Drawn(error),
            Event::Pixel(good, text) => EventModel::Pixel(good, text@),
        }
    }
}

/// The next GL action.
#[derive(Debug, Clone, Copy)]
pub enum Action {
    CompileConvertFragment,
    /// Compile the convert compute body behind a prelude.
    ProbeConvert(&'static str),
    BuildConvertTarget,
    DrawConvert,
    ReadConvert,
    CompileUpscaleFragment,
    /// Compile the upscale compute body behind a prelude.
    ProbeUpscale(&'static str),
    /// Compile the activate compute body behind a prelude.
    ProbeActivate(&'static str),
    BuildUpscaleTarget,
    DrawUpscale,
    ReadUpscale,
    /// The test is over.
    Report,
}

/// State of the test.
#[verifier::ext_equal]
pub struct SelftestModel {
    pub phase: Phase,
    /// The preludes that convert is probed with.
    pub preludes: Seq<Seq<char>>,
    /// The prelude that the backend selects.
    pub selected: Option<Seq<char>>,
    /// Some probe of convert succeeded.
    pub probed: bool,
    pub lines: Seq<Seq<char>>,
}

/// A version as text.
pub open spec fn version_text(major: u32, minor: u32) -> Seq<char> {
    "GL "@ + text::decimal(major as nat) + "."@ + text::decimal(minor as nat)
}

/// The preludes to probe convert with: the selected one first, then every
/// other.
pub open spec fn candidates(selected: Option<Seq<char>>) -> Seq<Seq<char>> {
    if selected == Some(gl::PRELUDE_420@) {
        seq![gl::PRELUDE_420@, gl::PRELUDE_430@]
    } else {
        seq![gl::PRELUDE_430@, gl::PRELUDE_420@]
    }
}

impl SelftestModel {
    /// The state with one more line, in another phase.
    pub open spec fn told(self, line: Seq<char>, phase: Phase) -> SelftestModel {
        SelftestModel { lines: self.lines.push(line), phase, ..self }
    }

    /// The failed state: the report is the failure alone.
    pub open spec fn failed(self, line: Seq<char>) -> SelftestModel {
        SelftestModel { lines: seq![line], phase: Phase::Failed, ..self }
    }

    /// Behind the last line of a convert probe: on to the next prelude, or on
    /// to drawing.
    pub open spec fn convert_probed(self, k: usize) -> SelftestModel {
        if k + 1 < self.preludes.len() {
            SelftestModel { phase: Phase::ConvertProbe((k + 1) as usize), ..self }
        } else if self.probed {
            SelftestModel { phase: Phase::ConvertTarget, ..self }
        } else {
            self.told(
                "convert.comp probe: no compute prelude worked (fragment fallback covers this)"@,
                Phase::ConvertTarget,
            )
        }
    }

    /// A line on a convert probe.
    pub open spec fn probe_line(self, k: usize, result: Seq<char>) -> Seq<char> {
        "convert.comp probe ("@ + text::first_line_or_mark(self.preludes[k as int]) + "...): "@
            + result
    }
}

/// A line on a probe with the selected prelude.
pub open spec fn selected_line(shader: Seq<char>, result: Seq<char>) -> Seq<char> {
    shader + " probe (selected prelude): "@ + result
}

/// The line on a shader that no prelude works for.
pub open spec fn no_prelude_line(shader: Seq<char>) -> Seq<char> {
    shader
        + " probe: no working prelude (fragment path covers upscale; activate waits for stage 5)"@
}

/// The start: the passes need GL 4.
pub open spec fn started(major: u32, minor: u32, advertised: bool) -> SelftestModel {
    let selected = gl::prelude(major, minor, advertised);
    SelftestModel {
        phase: if major < 4 {
            Phase::Failed
        } else {
            Phase::ConvertFragment
        },
        preludes: candidates(selected),
        selected,
        probed: false,
        lines: seq![
            if major < 4 {
                version_text(major, minor)
                    + " < 4.0: convert requires GLSL 4.20 (textureGather)"@
            } else {
                version_text(major, minor) + " >= 4.0: convert baseline met"@
            },
        ],
    }
}

/// The state after an event. Events that do not answer the current action
/// change nothing.
pub open spec fn after(m: SelftestModel, event: EventModel) -> SelftestModel {
    match (m.phase, event) {
        (Phase::ConvertFragment, EventModel::Compiled) => m.told(
            "convert.frag compiles: ok"@,
            Phase::ConvertProbe(0),
        ),
        (Phase::ConvertFragment, EventModel::Refused(e)) => m.failed(
            "convert.frag compile FAILED: "@ + e,
        ),
        (Phase::ConvertProbe(k), EventModel::Compiled) => (SelftestModel {
            probed: true,
            ..m.told(m.probe_line(k, "ok"@), m.phase)
        }).convert_probed(k),
        (Phase::ConvertProbe(k), EventModel::Refused(e)) => m.told(
            m.probe_line(k, text::first_line_or_mark(e)),
            m.phase,
        ).convert_probed(k),
        (Phase::ConvertTarget, EventModel::Target(s)) => if s == gpu::GL_FRAMEBUFFER_COMPLETE {
            m.told("convert FBO (RGBA16F, 64x64): complete"@, Phase::ConvertDraw)
        } else {
            m.failed("convert FBO incomplete: 0x"@ + text::hexadecimal(s as nat))
        },
        (Phase::ConvertDraw, EventModel::Drawn(e)) => if e == gpu::GL_NO_ERROR {
            m.told("convert draw: no GL errors"@, Phase::ConvertReadback)
        } else {
            m.failed("GL error after convert draw: 0x"@ + text::hexadecimal(e as nat))
        },
        (Phase::ConvertReadback, EventModel::Pixel(good, t)) => if good {
            m.told("convert readback center=("@ + t + "): ok"@, Phase::UpscaleFragment)
        } else {
            m.failed("convert readback center=("@ + t + "): expected ~(0,0,0,1)"@)
        },
        (Phase::UpscaleFragment, EventModel::Compiled) => if m.selected is Some {
            m.told("upscale.frag compiles: ok"@, Phase::UpscaleProbe)
        } else {
            m.told("upscale.frag compiles: ok"@, m.phase).told(
                no_prelude_line("upscale.comp"@),
                m.phase,
            ).told(no_prelude_line("activate.comp"@), Phase::UpscaleTarget)
        },
        (Phase::UpscaleFragment, EventModel::Refused(e)) => m.failed(
            "upscale.frag compile FAILED: "@ + e,
        ),
        (Phase::UpscaleProbe, EventModel::Compiled) => m.told(
            selected_line("upscale.comp"@, "ok"@),
            Phase::ActivateProbe,
        ),
        (Phase::UpscaleProbe, EventModel::Refused(e)) => m.told(
            selected_line("upscale.comp"@, text::first_line_or_mark(e)),
            m.phase,
        ).told(no_prelude_line("upscale.comp"@), Phase::ActivateProbe),
        (Phase::ActivateProbe, EventModel::Compiled) => m.told(
            selected_line("activate.comp"@, "ok"@),
            Phase::UpscaleTarget,
        ),
        (Phase::ActivateProbe, EventModel::Refused(e)) => m.told(
            selected_line("activate.comp"@, text::first_line_or_mark(e)),
            m.phase,
        ).told(no_prelude_line("activate.comp"@), Phase::UpscaleTarget),
        (Phase::UpscaleTarget, EventModel::Target(s)) => if s == gpu::GL_FRAMEBUFFER_COMPLETE {
            SelftestModel { phase: Phase::UpscaleDraw, ..m }
        } else {
            m.failed("upscale FBO incomplete"@)
        },
        (Phase::UpscaleDraw, EventModel::Drawn(e)) => if e == gpu::GL_NO_ERROR {
            SelftestModel { phase: Phase::UpscaleReadback, ..m }
        } else {
            m.failed("GL error after upscale draw: 0x"@ + text::hexadecimal(e as nat))
        },
        (Phase::UpscaleReadback, EventModel::Pixel(good, t)) => if good {
            m.told("upscale chain readback center=("@ + t + "): ok"@, Phase::Passed)
        } else {
            m.failed("upscale chain readback=("@ + t + "): expected ~(0.2,0.4,0.6)"@)
        },
        _ => m,
    }
}

/// The self test.
#[derive(Debug)]
pub struct Selftest {
    phase: Phase,
    preludes: Vec<&'static str>,
    selected: Option<&'static str>,
    probed: bool,
    lines: Vec<String>,
}

impl View for Selftest {
    type V = SelftestModel;

    closed spec fn view(&self) -> SelftestModel {
        SelftestModel {
            phase: self.phase,
            preludes: text::str_views(self.preludes@),
            selected: match self.selected {
                Some(p) => Some(p@),
                None => None,
            },
            probed: self.probed,
            lines: text::string_views(self.lines@),
        }
    }
}

impl SelftestModel {
    /// A probe is of a prelude in the list, and the later probes have one.
    pub open spec fn wf(self) -> bool {
        &&& self.preludes == candidates(self.selected)
        &&& self.phase matches Phase::ConvertProbe(k) ==> k < self.preludes.len()
        &&& (self.phase == Phase::UpscaleProbe || self.phase == Phase::ActivateProbe)
            ==> self.selected is Some
    }
}

/// The action of a state.
pub open spec fn asks(m: SelftestModel, a: Action) -> bool {
    match m.phase {
        Phase::ConvertFragment => a is CompileConvertFragment,
        Phase::ConvertProbe(k) => a matches Action::ProbeConvert(p) && p@ == m.preludes[k as int],
        Phase::ConvertTarget => a is BuildConvertTarget,
        Phase::ConvertDraw => a is DrawConvert,
        Phase::ConvertReadback => a is ReadConvert,
        Phase::UpscaleFragment => a is CompileUpscaleFragment,
        Phase::UpscaleProbe => a matches Action::ProbeUpscale(p) && Some(p@) == m.selected,
        Phase::ActivateProbe => a matches Action::ProbeActivate(p) && Some(p@) == m.selected,
        Phase::UpscaleTarget => a is BuildUpscaleTarget,
        Phase::UpscaleDraw => a is DrawUpscale,
        Phase::UpscaleReadback => a is ReadUpscale,
        Phase::Passed | Phase::Failed => a is Report,
    }
}

impl Selftest {
    /// Starts the test on a context of a version; `advertised` tells whether
    /// it advertises compute shaders.
    pub fn start(major: u32, minor: u32, advertised: bool) -> (r: Selftest)
        ensures
            r@ == started(major, minor, advertised),
            r@.wf(),
    {
        let selected = gl::compute_prelude(major, minor, advertised);
        let mut preludes: Vec<&'static str> = Vec::new();
        let second = match selected {
            Some(p) => text::same(p, gl::PRELUDE_420),
            None => false,
        };
        if second {
            preludes.push(gl::PRELUDE_420);
            preludes.push(gl::PRELUDE_430);
        } else {
            preludes.push(gl::PRELUDE_430);
            preludes.push(gl::PRELUDE_420);
        }
        let mut line = String::new();
        line.append("GL ");
        text::push_decimal(&mut line, major as u64);
        line.append(".");
        text::push_decimal(&mut line, minor as u64);
        if major < 4 {
            line.append(" < 4.0: convert requires GLSL 4.20 (textureGather)");
        } else {
            line.append(" >= 4.0: convert baseline met");
        }
        assert(line@ =~= started(major, minor, advertised).lines[0]);
        let mut lines: Vec<String> = Vec::new();
        lines.push(line);
        let r = Selftest {
            phase: if major < 4 {
                Phase::Failed
            } else {
                Phase::ConvertFragment
            },
            preludes,
            selected,
            probed: false,
            lines,
        };
        assert(r@.preludes =~= candidates(r@.selected));
        assert(r@ =~= started(major, minor, advertised));
        r
    }

    /// Where the test stands.
    pub fn phase(&self) -> (r: Phase)
        ensures
            r == self@.phase,
    {
        self.phase
    }

    /// The report so far; after a failure, the failure alone.
    pub fn lines(&self) -> (r: &Vec<String>)
        ensures
            text::string_views(r@) == self@.lines,
    {
        &self.lines
    }

    /// The next GL action.
    pub fn action(&self) -> (r: Action)
        requires
            self@.wf(),
        ensures
            asks(self@, r),
    {
        match self.phase {
            Phase::ConvertFragment => Action::CompileConvertFragment,
            Phase::ConvertProbe(k) => {
                assert(self@.preludes[k as int] == self.preludes@[k as int]@);
                Action::ProbeConvert(self.preludes[k])
            },
            Phase::ConvertTarget => Action::BuildConvertTarget,
            Phase::ConvertDraw => Action::DrawConvert,
            Phase::ConvertReadback => Action::ReadConvert,
            Phase::UpscaleFragment => Action::CompileUpscaleFragment,
            Phase::UpscaleProbe => match self.selected {
                Some(p) => Action::ProbeUpscale(p),
                None => Action::Report,
            },
            Phase::ActivateProbe => match self.selected {
                Some(p) => Action::ProbeActivate(p),
                None => Action::Report,
            },
            Phase::UpscaleTarget => Action::BuildUpscaleTarget,
            Phase::UpscaleDraw => Action::DrawUpscale,
            Phase::UpscaleReadback => Action::ReadUpscale,
            Phase::Passed | Phase::Failed => Action::Report,
        }
    }

    fn tell(&mut self, line: String, phase: Phase)
        ensures
            final(self)@ == old(self)@.told(line@, phase),
    {
        self.lines.push(line);
        self.phase = phase;
        assert(self@ =~= old(self)@.told(line@, phase));
    }

    fn fail(&mut self, line: String)
        ensures
            final(self)@ == old(self)@.failed(line@),
    {
        self.lines = Vec::new();
        self.lines.push(line);
        self.phase = Phase::Failed;
        assert(self@ =~= old(self)@.failed(line@));
    }

    fn finish_probe(&mut self, k: usize)
        requires
            k < old(self)@.preludes.len(),
        ensures
            final(self)@ == old(self)@.convert_probed(k),
    {
        if k < self.preludes.len() - 1 {
            self.phase = Phase::ConvertProbe(k + 1);
        } else if self.probed {
            self.phase = Phase::ConvertTarget;
        } else {
            self.tell(
                text::copy(
                    "convert.comp probe: no compute prelude worked (fragment fallback covers this)",
                ),
                Phase::ConvertTarget,
            );
        }
    }

    fn probe(&self, k: usize, result: &str) -> (r: String)
        requires
            k < self@.preludes.len(),
        ensures
            r@ == self@.probe_line(k, result@),
    {
        assert(self@.preludes[k as int] == self.preludes@[k as int]@);
        let mut line = String::new();
        line.append("convert.comp probe (");
        line.append(text::first_line(self.preludes[k]));
        line.append("...): ");
        line.append(result);
        assert(line@ =~= self@.probe_line(k, result@));
        line
    }

    /// Tells on a probe with the selected prelude.
    fn tell_selected(&mut self, shader: &str, event: &Event, next: Phase)
        ensures
            event@ is Compiled ==> final(self)@ == old(self)@.told(
                selected_line(shader@, "ok"@),
                next,
            ),
            event@ is Refused ==> final(self)@ == old(self)@.told(
                selected_line(shader@, text::first_line_or_mark(event@->Refused_0)),
                old(self)@.phase,
            ).told(no_prelude_line(shader@), next),
            !(event@ is Compiled) && !(event@ is Refused) ==> final(self)@ == old(self)@,
    {
        match event {
            Event::Compiled => {
                let line = joined3(shader, " probe (selected prelude): ", "ok");
                self.tell(line, next);
            },
            Event::Refused(e) => {
                let line = joined3(
                    shader,
                    " probe (selected prelude): ",
                    text::first_line(e.as_str()),
                );
                let here = self.phase;
                self.tell(line, here);
                self.tell(no_prelude(shader), next);
            },
            _ => {},
        }
    }

    /// Takes in how the current action went; see [`after`].
    pub fn on(&mut self, event: &Event)
        requires
            old(self)@.wf(),
        ensures
            final(self)@ == after(old(self)@, event@),
            final(self)@.wf(),
    {
        match self.phase {
            Phase::ConvertFragment => match event {
                Event::Compiled => self.tell(
                    text::copy("convert.frag compiles: ok"),
                    Phase::ConvertProbe(0),
                ),
                Event::Refused(e) => self.fail(
                    text::concat2("convert.frag compile FAILED: ", e.as_str()),
                ),
                _ => {},
            },
            Phase::ConvertProbe(k) => match event {
                Event::Compiled => {
                    let line = self.probe(k, "ok");
                    let here = self.phase;
                    self.tell(line, here);
                    self.probed = true;
                    self.finish_probe(k);
                },
                Event::Refused(e) => {
                    let line = self.probe(k, text::first_line(e.as_str()));
                    let here = self.phase;
                    self.tell(line, here);
                    self.finish_probe(k);
                },
                _ => {},
            },
            Phase::ConvertTarget => if let Event::Target(s) = event {
                if *s == gpu::framebuffer_complete() {
                    self.tell(
                        text::copy("convert FBO (RGBA16F, 64x64): complete"),
                        Phase::ConvertDraw,
                    );
                } else {
                    self.fail(coded("convert FBO incomplete: 0x", *s));
                }
            },
            Phase::ConvertDraw => if let Event::Drawn(e) = event {
                if *e == gpu::no_error() {
                    self.tell(text::copy("convert draw: no GL errors"), Phase::ConvertReadback);
                } else {
                    self.fail(coded("GL error after convert draw: 0x", *e));
                }
            },
            Phase::ConvertReadback => if let Event::Pixel(good, t) = event {
                if *good {
                    self.tell(
                        joined3("convert readback center=(", t.as_str(), "): ok"),
                        Phase::UpscaleFragment,
                    );
                } else {
                    self.fail(
                        joined3(
                            "convert readback center=(",
                            t.as_str(),
                            "): expected ~(0,0,0,1)",
                        ),
                    );
                }
            },
            Phase::UpscaleFragment => match event {
                Event::Compiled => {
                    if self.selected.is_some() {
                        self.tell(text::copy("upscale.frag compiles: ok"), Phase::UpscaleProbe);
                    } else {
                        let here = self.phase;
                        self.tell(text::copy("upscale.frag compiles: ok"), here);
                        self.tell(no_prelude("upscale.comp"), here);
                        self.tell(no_prelude("activate.comp"), Phase::UpscaleTarget);
                    }
                },
                Event::Refused(e) => self.fail(
                    text::concat2("upscale.frag compile FAILED: ", e.as_str()),
                ),
                _ => {},
            },
            Phase::UpscaleProbe => self.tell_selected(
                "upscale.comp",
                event,
                Phase::ActivateProbe,
            ),
            Phase::ActivateProbe => self.tell_selected(
                "activate.comp",
                event,
                Phase::UpscaleTarget,
            ),
            Phase::UpscaleTarget => if let Event::Target(s) = event {
                if *s == gpu::framebuffer_complete() {
                    self.phase = Phase::UpscaleDraw;
                } else {
                    self.fail(text::copy("upscale FBO incomplete"));
                }
            },
            Phase::UpscaleDraw => if let Event::Drawn(e) = event {
                if *e == gpu::no_error() {
                    self.phase = Phase::UpscaleReadback;
                } else {
                    self.fail(coded("GL error after upscale draw: 0x", *e));
                }
            },
            Phase::UpscaleReadback => if let Event::Pixel(good, t) = event {
                if *good {
                    self.tell(
                        joined3("upscale chain readback center=(", t.as_str(), "): ok"),
                        Phase::Passed,
                    );
                } else {
                    self.fail(
                        joined3(
                            "upscale chain readback=(",
                            t.as_str(),
                            "): expected ~(0.2,0.4,0.6)",
                        ),
                    );
                }
            },
            Phase::Passed | Phase::Failed => {},
        }
    }
}

fn joined3(a: &str, b: &str, c: &str) -> (r: String)
    ensures
        r@ == a@ + b@ + c@,
{
    let mut out = text::concat2(a, b);
    out.append(c);
    assert(out@ =~= a@ + b@ + c@);
    out
}

fn no_prelude(shader: &str) -> (r: String)
    ensures
        r@ == no_prelude_line(shader@),
{
    text::concat2(
        shader,
        " probe: no working prelude (fragment path covers upscale; activate waits for stage 5)",
    )
}

fn coded(what: &str, code: u32) -> (r: String)
    ensures
        r@ == what@ + text::hexadecimal(code as nat),
{
    let mut out = text::copy(what);
    text::push_hexadecimal(&mut out, code);
    out
}

/// How far the test has come.
pub open spec fn progress(phase: Phase) -> nat {
    match phase {
        Phase::ConvertFragment => 0,
        Phase::ConvertProbe(k) => 1 + k as nat,
        Phase::ConvertTarget => 3,
        Phase::ConvertDraw => 4,
        Phase::ConvertReadback => 5,
        Phase::UpscaleFragment => 6,
        Phase::UpscaleProbe => 7,
        Phase::ActivateProbe => 8,
        Phase::UpscaleTarget => 9,
        Phase::UpscaleDraw => 10,
        Phase::UpscaleReadback => 11,
        Phase::Passed => 12,
        Phase::Failed => 12,
    }
}

/// An event that answers the current action.
pub open spec fn answers(phase: Phase, event: EventModel) -> bool {
    match phase {
        Phase::ConvertFragment | Phase::ConvertProbe(_) | Phase::UpscaleFragment
        | Phase::UpscaleProbe | Phase::ActivateProbe => event is Compiled || event is Refused,
        Phase::ConvertTarget | Phase::UpscaleTarget => event is Target,
        Phase::ConvertDraw | Phase::UpscaleDraw => event is Drawn,
        Phase::ConvertReadback | Phase::UpscaleReadback => event is Pixel,
        Phase::Passed | Phase::Failed => false,
    }
}

/// Every answer brings the test forward, so it comes to an end.
pub proof fn every_answer_makes_progress(m: SelftestModel, event: EventModel)
    requires
        m.wf(),
        answers(m.phase, event),
    ensures
        progress(after(m, event).phase) > progress(m.phase),
        progress(after(m, event).phase) <= 12,
{
}

/// A finished test stays as it is.
pub proof fn a_finished_test_is_final(m: SelftestModel, event: EventModel)
    requires
        m.phase == Phase::Passed || m.phase == Phase::Failed,
    ensures
        after(m, event) == m,
{
}

/// What the driver makes of a compute shader never fails the test.
pub proof fn probes_never_fail(m: SelftestModel, event: EventModel)
    requires
        m.wf(),
        m.phase is ConvertProbe || m.phase == Phase::UpscaleProbe || m.phase
            == Phase::ActivateProbe,
    ensures
        after(m, event).phase != Phase::Failed,
        after(m, event).lines.len() >= m.lines.len(),
{
}

/// A failure is reported alone, in one line.
pub proof fn a_failure_is_reported_alone(m: SelftestModel, event: EventModel)
    requires
        m.phase != Phase::Failed,
        after(m, event).phase == Phase::Failed,
    ensures
        after(m, event).lines.len() == 1,
        !(event is Compiled),
{
}

} // verus!
