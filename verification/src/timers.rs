//! Per-pass timer queries.
//!
//! Each timed section owns three query slots used in turn, so a result can
//! arrive a frame or two late. Only one section is timed per frame: nested
//! elapsed-time queries attribute wrongly on some drivers, so the sections
//! take turns.

use vstd::prelude::*;
use vstd::string::StringExecFns;

use crate::single;
use crate::single::Single;
use crate::text;

verus! {

/// A timed section.
#[derive(Debug, Clone, Copy, PartialEq, Eq, Structural)]
pub enum PassId {
    Convert,
    Activate,
    Upscale,
    Total,
    Sharp,
    Scene,
}

/// Number of timed sections.
pub const N_TIMED: usize = 6;

/// Number of query slots per section.
pub const N_SLOTS: usize = 3;

/// The position of a section in the per-section lists.
pub open spec fn index_of(pass: PassId) -> int {
    match pass {
        PassId::Convert => 0,
        PassId::Activate => 1,
        PassId::Upscale => 2,
        PassId::Total => 3,
        PassId::Sharp => 4,
        PassId::Scene => 5,
    }
}

/// The position of a slot in the flat slot lists.
pub open spec fn slot_at(pass: int, slot: int) -> int {
    pass * 3 + slot
}

impl PassId {
    /// The position of the section in the per-section lists.
    pub fn index(self) -> (r: usize)
        ensures
            r == index_of(self),
            r < N_TIMED,
    {
        match self {
            PassId::Convert => 0,
            PassId::Activate => 1,
            PassId::Upscale => 2,
            PassId::Total => 3,
            PassId::Sharp => 4,
            PassId::Scene => 5,
        }
    }
}

/// The section whose turn it is in frame `frame`.
pub open spec fn turn(frame: nat) -> PassId {
    let k = frame % 6;
    if k == 0 {
        PassId::Convert
    } else if k == 1 {
        PassId::Upscale
    } else if k == 2 {
        PassId::Activate
    } else if k == 3 {
        PassId::Total
    } else if k == 4 {
        PassId::Sharp
    } else {
        PassId::Scene
    }
}

/// The timer state.
#[verifier::ext_equal]
pub struct TimersModel {
    pub supported: bool,
    /// Query handles, three per section.
    pub slots: Seq<Option<glow::NativeQuery>>,
    /// The slot each section uses next.
    pub cursor: Seq<nat>,
    /// Slots with no result outstanding.
    pub consumed: Seq<bool>,
    /// Latest result per section, in milliseconds.
    pub ms: Seq<Single>,
    /// Smoothed result per section, in milliseconds.
    pub ema: Seq<Single>,
    /// Sections that have had a result.
    pub valid: Seq<bool>,
    /// The only section that may be timed this frame; `None` lets all.
    pub only: Option<PassId>,
}

impl TimersModel {
    pub open spec fn wf(self) -> bool {
        &&& self.slots.len() == 18
        &&& self.cursor.len() == 6
        &&& self.consumed.len() == 18
        &&& self.ms.len() == 6
        &&& self.ema.len() == 6
        &&& self.valid.len() == 6
        &&& forall|p: int| 0 <= p < 6 ==> #[trigger] self.cursor[p] < 3
        &&& forall|p: int| 0 <= p < 6 ==> single::is_time(#[trigger] self.ema[p])
        &&& self.supported ==> forall|k: int| 0 <= k < 18 ==> #[trigger] self.slots[k] is Some
    }

    /// Whether a query for `pass` may be issued this frame.
    pub open spec fn armed(self, pass: PassId) -> bool {
        self.supported && (self.only is None || self.only == Some(pass))
    }

    /// The flat position of the slot that `pass` uses next.
    pub open spec fn next_slot(self, pass: PassId) -> int {
        slot_at(index_of(pass), self.cursor[index_of(pass)] as int)
    }

    /// The state once `pass` has been begun.
    pub open spec fn begun(self, pass: PassId) -> TimersModel {
        if self.armed(pass) {
            TimersModel {
                cursor: self.cursor.update(
                    index_of(pass),
                    (self.cursor[index_of(pass)] + 1) % 3,
                ),
                consumed: self.consumed.update(self.next_slot(pass), false),
                ..self
            }
        } else {
            self
        }
    }

    /// The query that beginning `pass` starts, if any.
    pub open spec fn begun_query(self, pass: PassId) -> Option<glow::NativeQuery> {
        if self.armed(pass) {
            self.slots[self.next_slot(pass)]
        } else {
            None
        }
    }

    /// A result is outstanding in the flat slot `at`.
    pub open spec fn pending_at(self, at: int) -> bool {
        self.supported && !self.consumed[at] && self.slots[at] is Some
    }

    /// The state once a result of `ns` nanoseconds has come in for slot `at`.
    /// The first result of a section seeds the smoothed value; later ones are
    /// blended into it.
    pub open spec fn completed(self, at: int, ns: u32) -> TimersModel {
        let p = at / 3;
        let ms = single::of_nanoseconds(ns);
        TimersModel {
            consumed: self.consumed.update(at, true),
            ms: self.ms.update(p, ms),
            ema: self.ema.update(
                p,
                if self.valid[p] {
                    single::blended(self.ema[p], ms)
                } else {
                    ms
                },
            ),
            valid: self.valid.update(p, true),
            ..self
        }
    }

    /// A result has come in for slot `at`: it is outstanding, and `results`
    /// holds one.
    pub open spec fn arrives(self, results: Seq<Option<u32>>, at: int) -> bool {
        self.pending_at(at) && results[at] is Some
    }

    /// The state once the results for the first `n` slots have been taken in,
    /// in slot order.
    pub open spec fn polled_before(self, results: Seq<Option<u32>>, n: nat) -> TimersModel
        decreases n,
    {
        if n == 0 {
            self
        } else {
            let t = self.polled_before(results, (n - 1) as nat);
            if t.arrives(results, n - 1) {
                t.completed(n - 1, results[n - 1]->0)
            } else {
                t
            }
        }
    }

    /// The state once every result that has come in has been taken in.
    pub open spec fn polled(self, results: Seq<Option<u32>>) -> TimersModel {
        self.polled_before(results, 18)
    }

    /// The smoothed result of a section that has had one.
    pub open spec fn smoothed(self, pass: PassId) -> Option<Single> {
        if self.valid[index_of(pass)] {
            Some(self.ema[index_of(pass)])
        } else {
            None
        }
    }
}

/// Timers that have timed nothing yet. With fewer queries than slots, timing
/// counts as unsupported.
pub open spec fn fresh(supported: bool, queries: Seq<glow::NativeQuery>) -> TimersModel {
    TimersModel {
        supported: supported && queries.len() >= 18,
        slots: Seq::new(
            18,
            |i: int|
                if supported && i < queries.len() {
                    Some(queries[i])
                } else {
                    None
                },
        ),
        cursor: Seq::new(6, |i: int| 0nat),
        consumed: Seq::new(18, |i: int| true),
        ms: Seq::new(6, |i: int| Single { bits: 0 }),
        ema: Seq::new(6, |i: int| Single { bits: 0 }),
        valid: Seq::new(6, |i: int| false),
        only: None,
    }
}

/// Query slots and results of all timed sections.
#[derive(Debug)]
pub struct PassTimers {
    supported: bool,
    slots: Vec<Option<glow::NativeQuery>>,
    cursor: Vec<usize>,
    consumed: Vec<bool>,
    ms: Vec<Single>,
    ema: Vec<Single>,
    valid: Vec<bool>,
    only: Option<PassId>,
}

impl View for PassTimers {
    type V = TimersModel;

    closed spec fn view(&self) -> TimersModel {
        TimersModel {
            supported: self.supported,
            slots: self.slots@,
            cursor: self.cursor@.map_values(|c: usize| c as nat),
            consumed: self.consumed@,
            ms: self.ms@,
            ema: self.ema@,
            valid: self.valid@,
            only: self.only,
        }
    }
}

/// A query whose result is outstanding.
#[derive(Debug, Clone, Copy)]
pub struct Pending {
    /// Flat slot position.
    pub at: usize,
    pub query: glow::NativeQuery,
}

/// The outstanding queries among the first `n` slots, in slot order.
pub open spec fn pending_before(t: TimersModel, n: int) -> Seq<(int, glow::NativeQuery)>
    decreases n,
{
    if n <= 0 {
        Seq::empty()
    } else if t.pending_at(n - 1) {
        pending_before(t, n - 1).push((n - 1, t.slots[n - 1]->0))
    } else {
        pending_before(t, n - 1)
    }
}

/// What a list of pending queries names.
pub open spec fn pending_models(list: Seq<Pending>) -> Seq<(int, glow::NativeQuery)> {
    list.map_values(|p: Pending| (p.at as int, p.query))
}

impl PassTimers {
    /// Fresh timers over the queries that could be created, in slot order.
    pub fn new(supported: bool, queries: &Vec<glow::NativeQuery>) -> (r: PassTimers)
        ensures
            r@ == fresh(supported, queries@),
            r@.wf(),
    {
        let mut slots: Vec<Option<glow::NativeQuery>> = Vec::new();
        let mut consumed: Vec<bool> = Vec::new();
        for i in 0..N_TIMED * N_SLOTS
            invariant
                slots@.len() == i,
                consumed@.len() == i,
                forall|k: int|
                    0 <= k < i ==> #[trigger] slots@[k] == if supported && k < queries@.len() {
                        Some(queries@[k])
                    } else {
                        None
                    },
                forall|k: int| 0 <= k < i ==> #[trigger] consumed@[k],
        {
            if supported && i < queries.len() {
                slots.push(Some(queries[i]));
            } else {
                slots.push(None);
            }
            consumed.push(true);
        }
        let mut cursor: Vec<usize> = Vec::new();
        let mut ms: Vec<Single> = Vec::new();
        let mut ema: Vec<Single> = Vec::new();
        let mut valid: Vec<bool> = Vec::new();
        for i in 0..N_TIMED
            invariant
                cursor@.len() == i,
                ms@.len() == i,
                ema@.len() == i,
                valid@.len() == i,
                forall|k: int| 0 <= k < i ==> #[trigger] cursor@[k] == 0,
                forall|k: int| 0 <= k < i ==> #[trigger] ms@[k] == (Single { bits: 0 }),
                forall|k: int| 0 <= k < i ==> #[trigger] ema@[k] == (Single { bits: 0 }),
                forall|k: int| 0 <= k < i ==> !#[trigger] valid@[k],
        {
            cursor.push(0);
            ms.push(Single { bits: 0 });
            ema.push(Single { bits: 0 });
            valid.push(false);
        }
        let r = PassTimers {
            supported: supported && queries.len() >= N_TIMED * N_SLOTS,
            slots,
            cursor,
            consumed,
            ms,
            ema,
            valid,
            only: None,
        };
        assert(r@ =~= fresh(supported, queries@));
        r
    }

    /// Whether a query for `pass` may be issued this frame.
    pub fn timer_armed(&self, pass: PassId) -> (r: bool)
        ensures
            r == self@.armed(pass),
    {
        self.supported && match self.only {
            None => true,
            Some(p) => p == pass,
        }
    }

    /// Starts timing `pass`; the result is the query to begin.
    pub fn begin(&mut self, pass: PassId) -> (r: Option<glow::NativeQuery>)
        requires
            old(self)@.wf(),
        ensures
            final(self)@ == old(self)@.begun(pass),
            final(self)@.wf(),
            r == old(self)@.begun_query(pass),
    {
        if !self.timer_armed(pass) {
            return None;
        }
        let p = pass.index();
        let ghost before = self@;
        assert(self@.cursor[p as int] == self.cursor@[p as int]);
        let s: usize = self.cursor[p];
        assert(s < 3);
        let at: usize = p * 3 + s;
        self.cursor.set(p, (s + 1) % 3);
        self.consumed.set(at, false);
        assert(self@.cursor =~= before.cursor.update(p as int, ((s + 1) % 3) as nat));
        assert(self@ =~= before.begun(pass));
        self.slots[at]
    }

    /// Whether the query of `pass` has to be ended.
    pub fn end(&self, pass: PassId) -> (r: bool)
        ensures
            r == self@.armed(pass),
    {
        self.timer_armed(pass)
    }

    /// See [`PassTimers::begin`].
    pub fn timer_begin(&mut self, pass: PassId) -> (r: Option<glow::NativeQuery>)
        requires
            old(self)@.wf(),
        ensures
            final(self)@ == old(self)@.begun(pass),
            final(self)@.wf(),
            r == old(self)@.begun_query(pass),
    {
        self.begin(pass)
    }

    /// See [`PassTimers::end`].
    pub fn timer_end(&self, pass: PassId) -> (r: bool)
        ensures
            r == self@.armed(pass),
    {
        self.end(pass)
    }

    /// The queries whose results are outstanding, in slot order.
    pub fn pending(&self) -> (r: Vec<Pending>)
        requires
            self@.wf(),
        ensures
            pending_models(r@) == pending_before(self@, 18),
    {
        let mut out: Vec<Pending> = Vec::new();
        for i in 0..N_TIMED * N_SLOTS
            invariant
                self@.wf(),
                pending_models(out@) == pending_before(self@, i as int),
        {
            if self.supported && !self.consumed[i] {
                match self.slots[i] {
                    Some(query) => {
                        let ghost before = out@;
                        out.push(Pending { at: i, query });
                        assert(pending_models(out@) =~= pending_models(before).push(
                            (i as int, query),
                        ));
                    },
                    None => {},
                }
            }
        }
        out
    }

    /// Takes in a result of `ns` nanoseconds.
    fn complete(&mut self, at: usize, ns: u32)
        requires
            old(self)@.wf(),
            at < 18,
        ensures
            final(self)@ == old(self)@.completed(at as int, ns),
            final(self)@.wf(),
    {
        let p: usize = at / 3;
        let ghost before = self@;
        let ms = single::read_nanoseconds(ns);
        self.ms.set(p, ms);
        if self.valid[p] {
            let smoothed = self.ema[p];
            assert(before.ema[p as int] == smoothed);
            self.ema.set(p, single::blend_in(smoothed, ms));
        } else {
            self.ema.set(p, ms);
        }
        self.valid.set(p, true);
        self.consumed.set(at, true);
        assert(self@ =~= before.completed(at as int, ns));
    }

    /// Takes in the results that have arrived, each once. `results` holds, for
    /// every slot, the nanoseconds its query has come up with.
    pub fn poll(&mut self, results: &Vec<Option<u32>>)
        requires
            old(self)@.wf(),
            results@.len() == 18,
        ensures
            final(self)@ == old(self)@.polled(results@),
            final(self)@.wf(),
    {
        let ghost before = self@;
        for i in 0..N_TIMED * N_SLOTS
            invariant
                results@.len() == 18,
                self@.wf(),
                self@ == before.polled_before(results@, i as nat),
        {
            if self.supported && !self.consumed[i] && self.slots[i].is_some() {
                if let Some(ns) = results[i] {
                    self.complete(i, ns);
                }
            }
        }
    }

    /// The smoothed milliseconds of a section that has had a result.
    pub fn ema(&self, pass: PassId) -> (r: Option<Single>)
        requires
            self@.wf(),
        ensures
            r == self@.smoothed(pass),
    {
        let p = pass.index();
        if self.valid[p] {
            Some(self.ema[p])
        } else {
            None
        }
    }

    /// Whether timer queries are in use.
    pub fn supported(&self) -> (r: bool)
        ensures
            r == self@.supported,
    {
        self.supported
    }

    /// Gives the turn of this frame to one section.
    pub fn take_turn(&mut self, frame: u64)
        ensures
            final(self)@ == (TimersModel { only: Some(turn(frame as nat)), ..old(self)@ }),
    {
        self.only = Some(
            match frame % 6 {
                0 => PassId::Convert,
                1 => PassId::Upscale,
                2 => PassId::Activate,
                3 => PassId::Total,
                4 => PassId::Sharp,
                _ => PassId::Scene,
            },
        );
    }

    /// The timing overlay. `texts` holds the smoothed milliseconds of each
    /// section as text, in section order.
    pub fn report(&self, texts: &Vec<String>) -> (r: String)
        requires
            self@.wf(),
            texts@.len() == 6,
        ensures
            r@ == overlay(self@, text::string_views(texts@)),
    {
        format_report(
            self.supported,
            self.text_of(texts, PassId::Convert),
            self.text_of(texts, PassId::Activate),
            self.text_of(texts, PassId::Upscale),
            self.text_of(texts, PassId::Total),
            self.text_of(texts, PassId::Sharp),
            self.text_of(texts, PassId::Scene),
        )
    }

    fn text_of<'a>(&self, texts: &'a Vec<String>, pass: PassId) -> (r: Option<&'a str>)
        requires
            self@.wf(),
            texts@.len() == 6,
        ensures
            r is Some == shown(self@, text::string_views(texts@), pass) is Some,
            r is Some ==> r->0@ == shown(self@, text::string_views(texts@), pass)->0,
    {
        let p = pass.index();
        if self.valid[p] {
            Some(texts[p].as_str())
        } else {
            None
        }
    }
}

/// Milliseconds with their unit, or a placeholder.
pub open spec fn ms_text(v: Option<Seq<char>>) -> Seq<char> {
    match v {
        Some(t) => t + "ms"@,
        None => "--"@,
    }
}

/// The timing overlay.
pub open spec fn report_text(
    supported: bool,
    convert: Option<Seq<char>>,
    activate: Option<Seq<char>>,
    upscale: Option<Seq<char>>,
    total: Option<Seq<char>>,
    sharp: Option<Seq<char>>,
    scene: Option<Seq<char>>,
) -> Seq<char> {
    if supported {
        "gpu=[convert "@ + ms_text(convert) + " activate "@ + ms_text(activate) + " upscale "@
            + ms_text(upscale) + " sharp "@ + ms_text(sharp) + " scene "@ + ms_text(scene)
            + " total "@ + ms_text(total) + "]"@
    } else {
        "gpu=[timer queries unsupported]"@
    }
}

/// The text of a section that has had a result.
pub open spec fn shown(t: TimersModel, texts: Seq<Seq<char>>, pass: PassId) -> Option<Seq<char>> {
    if t.valid[index_of(pass)] {
        Some(texts[index_of(pass)])
    } else {
        None
    }
}

/// The timing overlay of a state, given the text of each section.
pub open spec fn overlay(t: TimersModel, texts: Seq<Seq<char>>) -> Seq<char> {
    report_text(
        t.supported,
        shown(t, texts, PassId::Convert),
        shown(t, texts, PassId::Activate),
        shown(t, texts, PassId::Upscale),
        shown(t, texts, PassId::Total),
        shown(t, texts, PassId::Sharp),
        shown(t, texts, PassId::Scene),
    )
}

/// What an optional text shows.
pub open spec fn opt_view(v: Option<&str>) -> Option<Seq<char>> {
    match v {
        Some(t) => Some(t@),
        None => None,
    }
}

/// Milliseconds with their unit, or a placeholder.
pub fn fmt_ms(v: Option<&str>) -> (r: String)
    ensures
        r@ == ms_text(opt_view(v)),
{
    let mut out = String::new();
    match v {
        Some(t) => {
            out.append(t);
            out.append("ms");
        },
        None => {
            out.append("--");
        },
    }
    assert(out@ =~= ms_text(opt_view(v)));
    out
}

/// Formats the timing overlay from the milliseconds of each section as text.
pub fn format_report(
    supported: bool,
    convert_ms: Option<&str>,
    activate_ms: Option<&str>,
    upscale_ms: Option<&str>,
    total_ms: Option<&str>,
    sharp_ms: Option<&str>,
    scene_ms: Option<&str>,
) -> (r: String)
    ensures
        r@ == report_text(
            supported,
            opt_view(convert_ms),
            opt_view(activate_ms),
            opt_view(upscale_ms),
            opt_view(total_ms),
            opt_view(sharp_ms),
            opt_view(scene_ms),
        ),
{
    let mut s = String::new();
    if !supported {
        s.append("gpu=[timer queries unsupported]");
        assert(s@ =~= "gpu=[timer queries unsupported]"@);
        return s;
    }
    s.append("gpu=[convert ");
    s.append(fmt_ms(convert_ms).as_str());
    s.append(" activate ");
    s.append(fmt_ms(activate_ms).as_str());
    s.append(" upscale ");
    s.append(fmt_ms(upscale_ms).as_str());
    s.append(" sharp ");
    s.append(fmt_ms(sharp_ms).as_str());
    s.append(" scene ");
    s.append(fmt_ms(scene_ms).as_str());
    s.append(" total ");
    s.append(fmt_ms(total_ms).as_str());
    s.append("]");
    assert(s@ =~= report_text(
        supported,
        opt_view(convert_ms),
        opt_view(activate_ms),
        opt_view(upscale_ms),
        opt_view(total_ms),
        opt_view(sharp_ms),
        opt_view(scene_ms),
    ));
    s
}

/// Within one frame at most one section is timed once turns are taken.
pub proof fn one_section_per_frame(t: TimersModel, frame: nat, a: PassId, b: PassId)
    requires
        t.only == Some(turn(frame)),
        t.armed(a),
        t.armed(b),
    ensures
        a == b,
        a == turn(frame),
{
}

/// In any six consecutive frames every section has its turn exactly once.
pub proof fn every_section_has_its_turn(frame: nat, pass: PassId)
    ensures
        exists|k: nat| k < 6 && #[trigger] turn(frame + k) == pass,
        forall|j: nat, k: nat|
            j < 6 && k < 6 && #[trigger] turn(frame + j) == pass && #[trigger] turn(frame + k)
                == pass ==> j == k,
{
    let r = frame % 6;
    let want: nat = match pass {
        PassId::Convert => 0,
        PassId::Upscale => 1,
        PassId::Activate => 2,
        PassId::Total => 3,
        PassId::Sharp => 4,
        PassId::Scene => 5,
    };
    let k: nat = if want >= r {
        (want - r) as nat
    } else {
        (want + 6 - r) as nat
    };
    assert((frame + k) % 6 == want);
    assert(turn(frame + k) == pass);
}

/// Beginning a section three times comes back to the slot it started from,
/// and leaves the other sections alone.
pub proof fn slots_rotate(t: TimersModel, pass: PassId, other: PassId)
    requires
        t.wf(),
        t.armed(pass),
        other != pass,
    ensures
        t.begun(pass).begun(pass).begun(pass).cursor == t.cursor,
        t.begun(pass).next_slot(pass) != t.next_slot(pass),
        t.begun(pass).next_slot(other) == t.next_slot(other),
{
    let p = index_of(pass);
    assert(t.cursor[p] < 3);
    let t1 = t.begun(pass);
    let t2 = t1.begun(pass);
    let t3 = t2.begun(pass);
    assert(t1.cursor[p] == (t.cursor[p] + 1) % 3);
    assert(t2.cursor[p] == (t1.cursor[p] + 1) % 3);
    assert(t3.cursor =~= t.cursor);
}

/// Which slots are outstanding, and which sections have changed, once the
/// results for the first `n` slots have been taken in.
proof fn lemma_polled_before(t: TimersModel, results: Seq<Option<u32>>, n: nat)
    requires
        t.wf(),
        n <= 18,
    ensures
        ({
            let u = t.polled_before(results, n);
            &&& u.wf()
            &&& u.supported == t.supported
            &&& u.slots == t.slots
            &&& u.cursor == t.cursor
            &&& u.only == t.only
            &&& forall|k: int|
                0 <= k < 18 ==> #[trigger] u.consumed[k] == (t.consumed[k] || (k < n && t.arrives(
                    results,
                    k,
                )))
            &&& forall|p: int|
                #![trigger u.ema[p]]
                #![trigger u.valid[p]]
                #![trigger u.ms[p]]
                0 <= p < 6 && (forall|k: int|
                    p * 3 <= k < p * 3 + 3 && k < n ==> !#[trigger] t.arrives(results, k)) ==> {
                    &&& u.ema[p] == t.ema[p]
                    &&& u.valid[p] == t.valid[p]
                    &&& u.ms[p] == t.ms[p]
                }
        }),
    decreases n,
{
    if n > 0 {
        let i = n - 1;
        lemma_polled_before(t, results, i as nat);
        let v = t.polled_before(results, i as nat);
        assert(v.consumed[i] == t.consumed[i]);
        assert(v.arrives(results, i) == t.arrives(results, i));
        if v.arrives(results, i) {
            let ns = results[i]->0;
            assert(single::is_time(v.ema[i / 3]));
            single::times_stay_times(ns, v.ema[i / 3], v.ema[i / 3]);
            single::times_stay_times(ns, v.ema[i / 3], single::of_nanoseconds(ns));
        }
    }
}

/// A section with one result that has come in takes it over if it is the
/// first, and blends it into the smoothed time if not.
pub proof fn a_result_is_smoothed(
    t: TimersModel,
    results: Seq<Option<u32>>,
    pass: PassId,
    at: int,
)
    requires
        t.wf(),
        index_of(pass) * 3 <= at < index_of(pass) * 3 + 3,
        t.arrives(results, at),
        forall|k: int|
            index_of(pass) * 3 <= k < index_of(pass) * 3 + 3 && k != at ==> !#[trigger] t.arrives(
                results,
                k,
            ),
    ensures
        t.polled(results).smoothed(pass) == Some(
            match t.smoothed(pass) {
                Some(before) => single::blended(before, single::of_nanoseconds(results[at]->0)),
                None => single::of_nanoseconds(results[at]->0),
            },
        ),
{
    let p = index_of(pass);
    lemma_polled_before(t, results, at as nat);
    let v = t.polled_before(results, at as nat);
    assert(v.consumed[at] == t.consumed[at]);
    assert(v.ema[p] == t.ema[p] && v.valid[p] == t.valid[p]);
    let u = t.polled_before(results, (at + 1) as nat);
    assert(u == v.completed(at, results[at]->0));
    lemma_later_slots_leave_alone(t, results, p, (at + 1) as nat, 18);
}

/// Slots from `m` on in which nothing arrives leave section `p` alone.
proof fn lemma_later_slots_leave_alone(
    t: TimersModel,
    results: Seq<Option<u32>>,
    p: int,
    m: nat,
    n: nat,
)
    requires
        t.wf(),
        0 <= p < 6,
        m <= n <= 18,
        forall|k: int|
            m <= k && p * 3 <= k < p * 3 + 3 ==> !#[trigger] t.arrives(results, k),
    ensures
        t.polled_before(results, n).ema[p] == t.polled_before(results, m).ema[p],
        t.polled_before(results, n).valid[p] == t.polled_before(results, m).valid[p],
    decreases n,
{
    if m < n {
        let i = n - 1;
        lemma_later_slots_leave_alone(t, results, p, m, i as nat);
        lemma_polled_before(t, results, i as nat);
        let v = t.polled_before(results, i as nat);
        assert(v.consumed[i] == t.consumed[i]);
        assert(v.arrives(results, i) == t.arrives(results, i));
    }
}

/// A section for which no result has come in keeps its smoothed time.
pub proof fn no_result_no_change(t: TimersModel, results: Seq<Option<u32>>, pass: PassId)
    requires
        t.wf(),
        forall|k: int|
            index_of(pass) * 3 <= k < index_of(pass) * 3 + 3 ==> !#[trigger] t.arrives(results, k),
    ensures
        t.polled(results).smoothed(pass) == t.smoothed(pass),
{
    lemma_polled_before(t, results, 18);
    let u = t.polled(results);
    let p = index_of(pass);
    assert(u.ema[p] == t.ema[p] && u.valid[p] == t.valid[p]);
}

/// Polling when nothing has come in changes nothing.
pub proof fn polling_in_vain(t: TimersModel, results: Seq<Option<u32>>)
    requires
        forall|k: int| 0 <= k < 18 ==> !#[trigger] t.arrives(results, k),
    ensures
        t.polled(results) == t,
{
    lemma_in_vain(t, results, 18);
}

proof fn lemma_in_vain(t: TimersModel, results: Seq<Option<u32>>, n: nat)
    requires
        n <= 18,
        forall|k: int| 0 <= k < 18 ==> !#[trigger] t.arrives(results, k),
    ensures
        t.polled_before(results, n) == t,
    decreases n,
{
    if n > 0 {
        lemma_in_vain(t, results, (n - 1) as nat);
        assert(!t.arrives(results, n - 1));
    }
}

/// Each result is counted once: what a poll has taken in is no longer
/// outstanding, so polling for it again changes nothing.
pub proof fn results_count_once(t: TimersModel, results: Seq<Option<u32>>, again: Seq<Option<u32>>)
    requires
        t.wf(),
        forall|k: int|
            0 <= k < 18 && #[trigger] t.pending_at(k) && again[k] is Some ==> results[k] is Some,
    ensures
        t.polled(results).polled(again) == t.polled(results),
        forall|k: int|
            0 <= k < 18 ==> #[trigger] t.polled(results).pending_at(k) == (t.pending_at(k)
                && results[k] is None),
{
    lemma_polled_before(t, results, 18);
    let u = t.polled(results);
    assert forall|k: int| 0 <= k < 18 implies #[trigger] u.pending_at(k) == (t.pending_at(k)
        && results[k] is None) by {
        assert(u.consumed[k] == (t.consumed[k] || t.arrives(results, k)));
    }
    assert forall|k: int| 0 <= k < 18 implies !#[trigger] u.arrives(again, k) by {
        assert(u.pending_at(k) ==> t.pending_at(k));
    }
    polling_in_vain(u, again);
}

/// A query that has been begun is outstanding until its result comes in.
pub proof fn begun_is_pending_until_polled(
    t: TimersModel,
    pass: PassId,
    results: Seq<Option<u32>>,
)
    requires
        t.wf(),
        t.armed(pass),
    ensures
        t.begun(pass).pending_at(t.next_slot(pass)),
        t.begun(pass).polled(results).pending_at(t.next_slot(pass)) == (results[t.next_slot(pass)]
            is None),
{
    let k = t.next_slot(pass);
    assert(t.cursor[index_of(pass)] < 3);
    let u = t.begun(pass);
    assert(u.wf());
    assert(u.slots[k] is Some);
    results_count_once(u, results, results);
    assert(u.polled(results).pending_at(k) == (u.pending_at(k) && results[k] is None));
}

} // verus!
