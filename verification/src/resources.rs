//! The resource table: every texture the passes declare, by name.
//!
//! A resource has one tap, or several that take turns (ping-pong). Readers
//! see the current tap; a writer gets the next one, and the pair flips once
//! the write is done.

use vstd::prelude::*;

use crate::gpu;
use crate::text;

verus! {

/// Which resolution a resource follows.
#[derive(Debug, Clone, Copy, PartialEq, Eq, Structural)]
pub enum SizeDomain {
    Render,
    Display,
}

/// How a resource lives across frames.
#[derive(Debug, Clone, Copy, PartialEq, Eq, Structural)]
pub enum ResourceKind {
    /// Produced outside the framework and registered per frame.
    External,
    /// Written each frame, with no role across frames.
    Scratch,
    /// Stateful taps that rotate after any pass writes them.
    PingPong { taps: usize },
}

/// A resource that a pass declares. One of each name is allocated for the
/// whole pipeline.
#[derive(Debug, Clone, Copy)]
pub struct ResourceSpec {
    pub name: &'static str,
    pub kind: ResourceKind,
    pub internal: i32,
    pub upload_format: u32,
    pub upload_type: u32,
    pub domain: SizeDomain,
    pub filter: u32,
}

/// What a [`ResourceSpec`] says.
pub struct SpecModel {
    pub name: Seq<char>,
    pub kind: ResourceKind,
    pub internal: i32,
    pub upload_format: u32,
    pub upload_type: u32,
    pub domain: SizeDomain,
    pub filter: u32,
}

impl View for ResourceSpec {
    type V = SpecModel;

    open spec fn view(&self) -> SpecModel {
        SpecModel {
            name: self.name@,
            kind: self.kind,
            internal: self.internal,
            upload_format: self.upload_format,
            upload_type: self.upload_type,
            domain: self.domain,
            filter: self.filter,
        }
    }
}

/// The declarations of a list of specs.
pub open spec fn spec_models(specs: Seq<ResourceSpec>) -> Seq<SpecModel> {
    specs.map_values(|s: ResourceSpec| s@)
}

/// Number of textures behind a resource.
pub open spec fn tap_count(kind: ResourceKind) -> nat {
    match kind {
        ResourceKind::PingPong { taps } => taps as nat,
        _ => 1,
    }
}

/// Render and display resolution.
#[derive(Debug, Clone, Copy, PartialEq, Eq)]
pub struct Sizes {
    pub render: (u32, u32),
    pub display: (u32, u32),
}

impl Sizes {
    /// The resolution of a domain.
    pub open spec fn of(self, d: SizeDomain) -> (u32, u32) {
        match d {
            SizeDomain::Render => self.render,
            SizeDomain::Display => self.display,
        }
    }

    /// The resolution of a domain.
    pub fn dims(&self, d: SizeDomain) -> (r: (u32, u32))
        ensures
            r == self.of(d),
    {
        match d {
            SizeDomain::Render => self.render,
            SizeDomain::Display => self.display,
        }
    }
}

/// One allocated resource.
#[derive(Debug)]
pub struct ResourceEntry {
    pub spec: ResourceSpec,
    pub tex: Vec<glow::NativeTexture>,
    pub fbo: Vec<glow::NativeFramebuffer>,
    /// The tap that readers see.
    pub read: usize,
    /// The first texture is the table's own, not one registered from outside.
    pub owned: bool,
}

/// What a [`ResourceEntry`] holds.
#[verifier::ext_equal]
pub struct EntryModel {
    pub spec: SpecModel,
    pub tex: Seq<glow::NativeTexture>,
    pub fbo: Seq<glow::NativeFramebuffer>,
    pub read: nat,
    pub owned: bool,
}

impl View for ResourceEntry {
    type V = EntryModel;

    open spec fn view(&self) -> EntryModel {
        EntryModel {
            spec: self.spec@,
            tex: self.tex@,
            fbo: self.fbo@,
            read: self.read as nat,
            owned: self.owned,
        }
    }
}

impl EntryModel {
    /// One texture and one framebuffer per tap, and a current tap among them.
    pub open spec fn wf(self) -> bool {
        &&& tap_count(self.spec.kind) > 0
        &&& self.tex.len() == tap_count(self.spec.kind)
        &&& self.fbo.len() == tap_count(self.spec.kind)
        &&& self.read < tap_count(self.spec.kind)
    }

    /// The tap that a writer gets.
    pub open spec fn write_tap(self) -> nat {
        match self.spec.kind {
            ResourceKind::PingPong { taps } => (self.read + 1) % (taps as nat),
            _ => 0,
        }
    }

    /// The entry once a write is done.
    pub open spec fn flipped(self) -> EntryModel {
        match self.spec.kind {
            ResourceKind::PingPong { taps } => EntryModel { read: self.write_tap(), ..self },
            _ => self,
        }
    }
}

/// Index of the first entry called `name`.
pub open spec fn position(entries: Seq<EntryModel>, name: Seq<char>) -> Option<int>
    decreases entries.len(),
{
    if entries.len() == 0 {
        None
    } else {
        match position(entries.drop_last(), name) {
            Some(i) => Some(i),
            None => if entries.last().spec.name == name {
                Some(entries.len() - 1)
            } else {
                None
            },
        }
    }
}

/// The texture that readers of `name` see.
pub open spec fn read_of(entries: Seq<EntryModel>, name: Seq<char>) -> Option<glow::NativeTexture> {
    match position(entries, name) {
        Some(i) => if entries[i].read < entries[i].tex.len() {
            Some(entries[i].tex[entries[i].read as int])
        } else {
            None
        },
        None => None,
    }
}

/// The tap and texture that a writer of `name` gets.
pub open spec fn write_of(entries: Seq<EntryModel>, name: Seq<char>) -> Option<
    (nat, glow::NativeTexture),
> {
    match position(entries, name) {
        Some(i) => if entries[i].write_tap() < entries[i].tex.len() {
            Some((entries[i].write_tap(), entries[i].tex[entries[i].write_tap() as int]))
        } else {
            None
        },
        None => None,
    }
}

/// The table after the write of `name` is done.
pub open spec fn flip_one(entries: Seq<EntryModel>, name: Seq<char>) -> Seq<EntryModel> {
    match position(entries, name) {
        Some(i) => entries.update(i, entries[i].flipped()),
        None => entries,
    }
}

/// The table after the writes of all `names` are done.
pub open spec fn flip_all(entries: Seq<EntryModel>, names: Seq<Seq<char>>) -> Seq<EntryModel>
    decreases names.len(),
{
    if names.len() == 0 {
        entries
    } else {
        flip_one(flip_all(entries, names.drop_last()), names.last())
    }
}

/// The table with `tex` registered under `name`.
pub open spec fn with_external(
    entries: Seq<EntryModel>,
    name: Seq<char>,
    tex: glow::NativeTexture,
) -> Seq<EntryModel> {
    match position(entries, name) {
        Some(i) => entries.update(
            i,
            EntryModel {
                tex: if entries[i].tex.len() == 0 {
                    seq![tex]
                } else {
                    entries[i].tex.update(0, tex)
                },
                owned: false,
                ..entries[i]
            },
        ),
        None => entries,
    }
}

/// The texture of the table's own that registering one under `name` pushes
/// out. A registered texture that another one replaces is not the table's.
pub open spec fn displaced(entries: Seq<EntryModel>, name: Seq<char>) -> Option<
    glow::NativeTexture,
> {
    match position(entries, name) {
        Some(i) => if entries[i].owned && entries[i].tex.len() > 0 {
            Some(entries[i].tex[0])
        } else {
            None
        },
        None => None,
    }
}

/// The entries of a table.
pub open spec fn entry_models(entries: Seq<ResourceEntry>) -> Seq<EntryModel> {
    entries.map_values(|e: ResourceEntry| e@)
}

/// Every entry is well formed.
pub open spec fn entries_wf(entries: Seq<EntryModel>) -> bool {
    forall|i: int| 0 <= i < entries.len() ==> (#[trigger] entries[i]).wf()
}

/// No two entries share a name.
pub open spec fn names_unique(entries: Seq<EntryModel>) -> bool {
    forall|i: int, j: int|
        0 <= i < j < entries.len() ==> (#[trigger] entries[i]).spec.name != (
        #[trigger] entries[j]).spec.name
}

/// `position` finds the first entry of the name, if there is one.
pub proof fn position_finds(entries: Seq<EntryModel>, name: Seq<char>)
    ensures
        match position(entries, name) {
            Some(i) => {
                &&& 0 <= i < entries.len()
                &&& entries[i].spec.name == name
                &&& forall|j: int| 0 <= j < i ==> (#[trigger] entries[j]).spec.name != name
            },
            None => forall|j: int|
                0 <= j < entries.len() ==> (#[trigger] entries[j]).spec.name != name,
        },
    decreases entries.len(),
{
    if entries.len() > 0 {
        let init = entries.drop_last();
        position_finds(init, name);
        assert forall|j: int| 0 <= j < init.len() implies init[j] == entries[j] by {}
    }
}

/// The index that [`position`] finds is fixed by what it finds.
proof fn lemma_position_is(entries: Seq<EntryModel>, name: Seq<char>, i: int)
    requires
        0 <= i < entries.len(),
        entries[i].spec.name == name,
        forall|j: int| 0 <= j < i ==> (#[trigger] entries[j]).spec.name != name,
    ensures
        position(entries, name) == Some(i),
{
    position_finds(entries, name);
}

/// The table of all allocated resources.
#[derive(Debug)]
pub struct ResourceTable {
    entries: Vec<ResourceEntry>,
}

impl View for ResourceTable {
    type V = Seq<EntryModel>;

    closed spec fn view(&self) -> Seq<EntryModel> {
        entry_models(self.entries@)
    }
}

impl ResourceTable {
    /// An empty table.
    pub fn new() -> (r: ResourceTable)
        ensures
            r@ == Seq::<EntryModel>::empty(),
    {
        let r = ResourceTable { entries: Vec::new() };
        assert(r@ =~= Seq::<EntryModel>::empty());
        r
    }

    /// Index of the entry called `name`.
    pub fn res_idx(&self, name: &str) -> (r: Option<usize>)
        ensures
            r is Some == position(self@, name@) is Some,
            r is Some ==> r->0 == position(self@, name@)->0 && r->0 < self@.len(),
    {
        let mut i: usize = 0;
        while i < self.entries.len()
            invariant
                i <= self.entries@.len(),
                forall|j: int| 0 <= j < i ==> (#[trigger] self@[j]).spec.name != name@,
            decreases self.entries@.len() - i,
        {
            assert(self@[i as int] == self.entries@[i as int]@);
            if text::same(self.entries[i].spec.name, name) {
                proof {
                    lemma_position_is(self@, name@, i as int);
                }
                return Some(i);
            }
            i = i + 1;
        }
        proof {
            position_finds(self@, name@);
        }
        None
    }

    /// Number of entries.
    pub fn len(&self) -> (r: usize)
        ensures
            r == self@.len(),
    {
        self.entries.len()
    }

    /// One entry.
    pub fn entry(&self, i: usize) -> (r: &ResourceEntry)
        requires
            i < self@.len(),
        ensures
            r@ == self@[i as int],
    {
        &self.entries[i]
    }

    /// The texture that readers of `name` see.
    pub fn read_tex(&self, name: &str) -> (r: Option<glow::NativeTexture>)
        ensures
            r == read_of(self@, name@),
    {
        match self.res_idx(name) {
            Some(i) => {
                assert(self@[i as int] == self.entries@[i as int]@);
                let e = &self.entries[i];
                if e.read < e.tex.len() {
                    Some(e.tex[e.read])
                } else {
                    None
                }
            },
            None => None,
        }
    }

    /// The tap and texture that a writer of `name` gets.
    pub fn write_tex(&self, name: &str) -> (r: Option<(usize, glow::NativeTexture)>)
        requires
            entries_wf(self@),
        ensures
            r is Some == write_of(self@, name@) is Some,
            r is Some ==> (r->0).0 == (write_of(self@, name@)->0).0 && (r->0).1 == (write_of(
                self@,
                name@,
            )->0).1,
    {
        match self.res_idx(name) {
            Some(i) => {
                assert(self@[i as int] == self.entries@[i as int]@);
                let e = &self.entries[i];
                let tap = write_tap(e);
                if tap < e.tex.len() {
                    Some((tap, e.tex[tap]))
                } else {
                    None
                }
            },
            None => None,
        }
    }

    /// Registers a texture produced outside. The result is the texture of the
    /// table's own that it pushes out.
    pub fn set_external(&mut self, name: &str, tex: glow::NativeTexture) -> (r: Option<
        glow::NativeTexture,
    >)
        ensures
            final(self)@ == with_external(old(self)@, name@, tex),
            r == displaced(old(self)@, name@),
    {
        match self.res_idx(name) {
            Some(i) => {
                assert(self@[i as int] == self.entries@[i as int]@);
                let owned = self.entries[i].owned;
                self.entries[i].owned = false;
                if self.entries[i].tex.len() == 0 {
                    self.entries[i].tex.push(tex);
                    assert(self@ =~~= with_external(old(self)@, name@, tex));
                    None
                } else {
                    let out = self.entries[i].tex[0];
                    self.entries[i].tex.set(0, tex);
                    assert(self@ =~~= with_external(old(self)@, name@, tex));
                    if owned {
                        Some(out)
                    } else {
                        None
                    }
                }
            },
            None => None,
        }
    }

    /// Makes the written tap of `name` the one that readers see.
    pub fn flip(&mut self, name: &str)
        requires
            entries_wf(old(self)@),
        ensures
            final(self)@ == flip_one(old(self)@, name@),
            entries_wf(final(self)@),
    {
        if let Some(i) = self.res_idx(name) {
            assert(self@[i as int] == self.entries@[i as int]@);
            let tap = write_tap(&self.entries[i]);
            match self.entries[i].spec.kind {
                ResourceKind::PingPong { .. } => {
                    self.entries[i].read = tap;
                },
                _ => {},
            }
            assert(self@ =~= flip_one(old(self)@, name@));
        }
    }
}

/// The tap that a writer of `e` gets.
pub fn write_tap(e: &ResourceEntry) -> (r: usize)
    requires
        e@.wf(),
    ensures
        r == e@.write_tap(),
        r < e@.tex.len(),
{
    match e.spec.kind {
        ResourceKind::PingPong { taps } => (e.read + 1) % taps,
        _ => 0,
    }
}

/// A texture set that has to be created.
#[derive(Debug, Clone, Copy)]
pub struct Allocation {
    pub spec: ResourceSpec,
    pub taps: usize,
    pub width: u32,
    pub height: u32,
}

/// What an [`Allocation`] asks for.
pub struct AllocationModel {
    pub spec: SpecModel,
    pub taps: nat,
    pub width: u32,
    pub height: u32,
}

impl View for Allocation {
    type V = AllocationModel;

    open spec fn view(&self) -> AllocationModel {
        AllocationModel {
            spec: self.spec@,
            taps: self.taps as nat,
            width: self.width,
            height: self.height,
        }
    }
}

/// The allocations of a plan.
pub open spec fn allocation_models(plan: Seq<Allocation>) -> Seq<AllocationModel> {
    plan.map_values(|a: Allocation| a@)
}

/// Some declaration in `specs` is called `name`.
pub open spec fn declares(specs: Seq<SpecModel>, name: Seq<char>) -> bool {
    exists|i: int| 0 <= i < specs.len() && (#[trigger] specs[i]).name == name
}

/// The first declaration of each name, in order of appearance.
pub open spec fn distinct(specs: Seq<SpecModel>) -> Seq<SpecModel>
    decreases specs.len(),
{
    if specs.len() == 0 {
        Seq::empty()
    } else {
        let init = distinct(specs.drop_last());
        if declares(init, specs.last().name) {
            init
        } else {
            init.push(specs.last())
        }
    }
}

/// What has to be created for one declaration. External resources are
/// replaced each frame, so they only get a one-pixel placeholder.
pub open spec fn allocation_of(spec: SpecModel, sizes: Sizes) -> AllocationModel {
    let (w, h) = if spec.kind == ResourceKind::External {
        (1u32, 1u32)
    } else {
        sizes.of(spec.domain)
    };
    AllocationModel { spec, taps: tap_count(spec.kind), width: w, height: h }
}

/// What has to be created for all declarations.
pub open spec fn plan_of(specs: Seq<SpecModel>, sizes: Sizes) -> Seq<AllocationModel> {
    distinct(specs).map_values(|s: SpecModel| allocation_of(s, sizes))
}

/// The union of all declarations has no name twice and misses none.
pub proof fn distinct_is_the_union(specs: Seq<SpecModel>)
    ensures
        forall|i: int, j: int|
            0 <= i < j < distinct(specs).len() ==> (#[trigger] distinct(specs)[i]).name != (
            #[trigger] distinct(specs)[j]).name,
        forall|n: Seq<char>| #[trigger] declares(distinct(specs), n) == declares(specs, n),
        forall|i: int|
            0 <= i < distinct(specs).len() ==> specs.contains(#[trigger] distinct(specs)[i]),
    decreases specs.len(),
{
    if specs.len() > 0 {
        let prev = specs.drop_last();
        let last = specs.last();
        distinct_is_the_union(prev);
        let d = distinct(specs);
        assert forall|n: Seq<char>| #[trigger] declares(d, n) == declares(specs, n) by {
            let dp = distinct(prev);
            if declares(specs, n) {
                let k = choose|k: int| 0 <= k < specs.len() && (#[trigger] specs[k]).name == n;
                if k < prev.len() {
                    assert(prev[k].name == n);
                    assert(declares(dp, n));
                    let m = choose|m: int| 0 <= m < dp.len() && (#[trigger] dp[m]).name == n;
                    assert(d[m].name == n);
                } else if declares(dp, last.name) {
                    let m = choose|m: int| 0 <= m < dp.len() && (#[trigger] dp[m]).name == last.name;
                    assert(d[m].name == n);
                } else {
                    assert(d[d.len() - 1].name == n);
                }
            }
            if declares(d, n) {
                let m = choose|m: int| 0 <= m < d.len() && (#[trigger] d[m]).name == n;
                if m < dp.len() {
                    assert(dp[m].name == n);
                    assert(declares(prev, n));
                    let k = choose|k: int| 0 <= k < prev.len() && (#[trigger] prev[k]).name == n;
                    assert(specs[k].name == n);
                } else {
                    assert(specs[specs.len() - 1].name == n);
                }
            }
        }
        assert forall|i: int| 0 <= i < d.len() implies specs.contains(#[trigger] d[i]) by {
            let dp = distinct(prev);
            if i < dp.len() {
                assert(d[i] == dp[i]);
                assert(prev.contains(dp[i]));
                let k = choose|k: int| 0 <= k < prev.len() && prev[k] == dp[i];
                assert(specs[k] == d[i]);
            } else {
                assert(specs[specs.len() - 1] == d[i]);
            }
        }
    }
}

/// Plans the textures for all declarations: one set per name.
pub fn plan(specs: &Vec<ResourceSpec>, sizes: Sizes) -> (r: Vec<Allocation>)
    ensures
        allocation_models(r@) == plan_of(spec_models(specs@), sizes),
{
    let mut out: Vec<Allocation> = Vec::new();
    let ghost models = spec_models(specs@);
    for i in 0..specs.len()
        invariant
            models == spec_models(specs@),
            allocation_models(out@) == plan_of(models.take(i as int), sizes),
    {
        let spec = specs[i];
        let ghost seen = distinct(models.take(i as int));
        proof {
            let t = models.take(i + 1);
            assert(t.drop_last() =~= models.take(i as int));
            assert(t.last() == spec@);
            assert(allocation_models(out@).len() == seen.len());
        }
        let mut known = false;
        let mut j: usize = 0;
        while j < out.len() && !known
            invariant
                j <= out@.len(),
                allocation_models(out@) == plan_of(models.take(i as int), sizes),
                seen == distinct(models.take(i as int)),
                out@.len() == seen.len(),
                known ==> declares(seen, spec.name@),
                !known ==> forall|k: int|
                    0 <= k < j ==> (#[trigger] seen[k]).name != spec.name@,
            decreases out@.len() - j + if known {
                    0int
                } else {
                    1int
                },
        {
            assert(allocation_models(out@)[j as int] == out@[j as int]@);
            assert(allocation_models(out@)[j as int] == allocation_of(seen[j as int], sizes));
            if text::same(out[j].spec.name, spec.name) {
                known = true;
                assert(seen[j as int].name == spec.name@);
            } else {
                j = j + 1;
            }
        }
        if !known {
            let taps: usize = match spec.kind {
                ResourceKind::PingPong { taps } => taps,
                _ => 1,
            };
            let (width, height) = match spec.kind {
                ResourceKind::External => (1, 1),
                _ => sizes.dims(spec.domain),
            };
            let ghost before = out@;
            out.push(Allocation { spec, taps, width, height });
            assert(!declares(seen, spec.name@));
            assert(allocation_models(out@) =~= allocation_models(before).push(
                allocation_of(spec@, sizes),
            ));
        }
        assert(allocation_models(out@) =~= plan_of(models.take(i + 1), sizes));
    }
    assert(models.take(specs@.len() as int) =~= models);
    out
}

/// The created taps of one allocation.
#[derive(Debug)]
pub struct TapHandles {
    pub tex: Vec<glow::NativeTexture>,
    pub fbo: Vec<glow::NativeFramebuffer>,
}

/// Each allocation has its taps, and at least one.
pub open spec fn handles_fit(plan: Seq<AllocationModel>, handles: Seq<TapHandles>) -> bool {
    &&& plan.len() == handles.len()
    &&& forall|i: int|
        0 <= i < plan.len() ==> {
            &&& (#[trigger] plan[i]).taps > 0
            &&& plan[i].taps == tap_count(plan[i].spec.kind)
            &&& handles[i].tex@.len() == plan[i].taps
            &&& handles[i].fbo@.len() == plan[i].taps
        }
}

/// The entries made of a plan and its handles; readers start at tap zero.
pub open spec fn installed(plan: Seq<AllocationModel>, handles: Seq<TapHandles>) -> Seq<
    EntryModel,
> {
    Seq::new(
        plan.len(),
        |i: int|
            EntryModel {
                spec: plan[i].spec,
                tex: handles[i].tex@,
                fbo: handles[i].fbo@,
                read: 0,
                owned: true,
            },
    )
}

/// A GL object that has to be deleted.
#[derive(Debug, Clone, Copy)]
pub enum Release {
    Texture(glow::NativeTexture),
    Framebuffer(glow::NativeFramebuffer),
}

/// Everything an entry holds: its textures, then its framebuffers.
pub open spec fn released(e: EntryModel) -> Seq<Release> {
    e.tex.map_values(|t: glow::NativeTexture| Release::Texture(t)) + e.fbo.map_values(
        |f: glow::NativeFramebuffer| Release::Framebuffer(f),
    )
}

/// Everything a table holds, entry by entry.
pub open spec fn all_released(entries: Seq<EntryModel>) -> Seq<Release>
    decreases entries.len(),
{
    if entries.len() == 0 {
        Seq::empty()
    } else {
        all_released(entries.drop_last()) + released(entries.last())
    }
}

impl ResourceTable {
    /// Empties the table and lists the objects it held.
    pub fn take_all(&mut self) -> (r: Vec<Release>)
        ensures
            r@ == all_released(old(self)@),
            final(self)@ == Seq::<EntryModel>::empty(),
    {
        let mut out: Vec<Release> = Vec::new();
        for i in 0..self.entries.len()
            invariant
                self@ == old(self)@,
                out@ == all_released(self@.take(i as int)),
        {
            let ghost done = self@.take(i as int);
            let ghost e = self@[i as int];
            assert(e == self.entries@[i as int]@);
            let entry = &self.entries[i];
            for j in 0..entry.tex.len()
                invariant
                    entry@ == e,
                    out@ == all_released(done) + released(e).take(j as int),
            {
                assert(released(e)[j as int] == Release::Texture(e.tex[j as int]));
                assert(released(e).take(j + 1) =~= released(e).take(j as int).push(
                    released(e)[j as int],
                ));
                out.push(Release::Texture(entry.tex[j]));
            }
            for j in 0..entry.fbo.len()
                invariant
                    entry@ == e,
                    out@ == all_released(done) + released(e).take(e.tex.len() + j),
            {
                let ghost k = e.tex.len() + j;
                assert(released(e)[k] == Release::Framebuffer(e.fbo[j as int]));
                assert(released(e).take(k + 1) =~= released(e).take(k).push(released(e)[k]));
                out.push(Release::Framebuffer(entry.fbo[j]));
            }
            proof {
                assert(released(e).take((e.tex.len() + e.fbo.len()) as int) =~= released(e));
                assert(self@.take(i + 1).drop_last() =~= done);
                assert(self@.take(i + 1).last() == e);
            }
        }
        assert(self@.take(self@.len() as int) =~= self@);
        self.entries = Vec::new();
        assert(self@ =~= Seq::<EntryModel>::empty());
        out
    }

    /// Fills the table with the created textures of a plan.
    pub fn install(&mut self, plan: &Vec<Allocation>, handles: Vec<TapHandles>)
        requires
            handles_fit(allocation_models(plan@), handles@),
        ensures
            final(self)@ == installed(allocation_models(plan@), handles@),
            entries_wf(final(self)@),
    {
        let ghost models = allocation_models(plan@);
        let ghost all = handles@;
        let mut rest = handles;
        let mut entries: Vec<ResourceEntry> = Vec::new();
        assert(all.skip(0) =~= all);
        for i in 0..plan.len()
            invariant
                models == allocation_models(plan@),
                models.len() == all.len(),
                rest@ == all.skip(i as int),
                entries@.len() == i,
                forall|k: int|
                    0 <= k < i ==> (#[trigger] entries@[k])@ == installed(models, all)[k],
        {
            assert(models[i as int] == plan@[i as int]@);
            let h = rest.remove(0);
            assert(h == all[i as int]);
            assert(rest@ =~= all.skip(i + 1));
            entries.push(
                ResourceEntry {
                    spec: plan[i].spec,
                    tex: h.tex,
                    fbo: h.fbo,
                    read: 0,
                    owned: true,
                },
            );
        }
        self.entries = entries;
        assert(self@ =~= installed(models, all));
        assert forall|k: int| 0 <= k < self@.len() implies (#[trigger] self@[k]).wf() by {
            assert(models[k].taps > 0);
        }
    }
}

/// Same names in the same places.
pub open spec fn same_names(a: Seq<EntryModel>, b: Seq<EntryModel>) -> bool {
    a.len() == b.len() && forall|i: int|
        0 <= i < a.len() ==> (#[trigger] a[i]).spec.name == b[i].spec.name
}

/// Where a name is found depends on the names alone.
pub proof fn position_follows_names(a: Seq<EntryModel>, b: Seq<EntryModel>, name: Seq<char>)
    requires
        same_names(a, b),
    ensures
        position(a, name) == position(b, name),
{
    position_finds(a, name);
    position_finds(b, name);
    match position(a, name) {
        Some(i) => {
            assert(b[i].spec.name == name);
        },
        None => {},
    }
    match position(b, name) {
        Some(i) => {
            assert(a[i].spec.name == name);
        },
        None => {},
    }
}

/// A flip renames nothing and keeps the entries well formed.
pub proof fn flip_keeps_the_shape(t: Seq<EntryModel>, name: Seq<char>)
    ensures
        same_names(t, flip_one(t, name)),
        entries_wf(t) ==> entries_wf(flip_one(t, name)),
{
    position_finds(t, name);
    let f = flip_one(t, name);
    assert(f.len() == t.len());
    assert forall|i: int| 0 <= i < t.len() implies (#[trigger] t[i]).spec.name == f[i].spec.name by {}
    if entries_wf(t) {
        assert forall|i: int| 0 <= i < f.len() implies (#[trigger] f[i]).wf() by {
            assert(t[i].wf());
        }
    }
}

/// Flips rename nothing and keep the entries well formed.
pub proof fn flips_keep_the_shape(t: Seq<EntryModel>, names: Seq<Seq<char>>)
    ensures
        same_names(t, flip_all(t, names)),
        entries_wf(t) ==> entries_wf(flip_all(t, names)),
    decreases names.len(),
{
    if names.len() > 0 {
        flips_keep_the_shape(t, names.drop_last());
        flip_keeps_the_shape(flip_all(t, names.drop_last()), names.last());
    }
}

/// Registering a texture renames nothing and keeps the entries well formed.
pub proof fn external_keeps_the_shape(t: Seq<EntryModel>, name: Seq<char>, tex: glow::NativeTexture)
    ensures
        same_names(t, with_external(t, name, tex)),
        entries_wf(t) ==> entries_wf(with_external(t, name, tex)),
{
    position_finds(t, name);
    let f = with_external(t, name, tex);
    assert forall|i: int| 0 <= i < t.len() implies (#[trigger] t[i]).spec.name == f[i].spec.name by {}
    if entries_wf(t) {
        assert forall|i: int| 0 <= i < f.len() implies (#[trigger] f[i]).wf() by {
            assert(t[i].wf());
        }
    }
}

/// A writer of a resource with several taps never gets the tap that readers
/// see.
pub proof fn writer_and_readers_are_apart(e: EntryModel)
    requires
        e.wf(),
        tap_count(e.spec.kind) >= 2,
    ensures
        e.write_tap() != e.read,
        e.write_tap() < e.tex.len(),
{
    let taps = tap_count(e.spec.kind);
    assert((e.read + 1) % taps == if e.read + 1 == taps {
        0
    } else {
        e.read + 1
    }) by (nonlinear_arith)
        requires
            e.read < taps,
            taps >= 2,
    ;
}

/// The entry after `k` writes.
pub open spec fn flipped_times(e: EntryModel, k: nat) -> EntryModel
    decreases k,
{
    if k == 0 {
        e
    } else {
        flipped_times(e, (k - 1) as nat).flipped()
    }
}

proof fn lemma_flipped_read(e: EntryModel, taps: nat, k: nat)
    requires
        e.wf(),
        e.spec.kind is PingPong,
        taps == tap_count(e.spec.kind),
    ensures
        flipped_times(e, k) == (EntryModel { read: (e.read + k) % taps, ..e }),
    decreases k,
{
    if k == 0 {
        assert(e.read % taps == e.read) by (nonlinear_arith)
            requires
                e.read < taps,
        ;
    } else {
        lemma_flipped_read(e, taps, (k - 1) as nat);
        let before = ((e.read + k - 1) % (taps as int)) as nat;
        vstd::arithmetic::div_mod::lemma_add_mod_noop((e.read + k - 1) as int, 1, taps as int);
        vstd::arithmetic::div_mod::lemma_add_mod_noop(before as int, 1, taps as int);
        vstd::arithmetic::div_mod::lemma_mod_twice((e.read + k - 1) as int, taps as int);
        assert((before + 1) % taps == (e.read + k) % taps);
    }
}

/// Writing a resource as often as it has taps brings it back to the tap it
/// started from.
pub proof fn taps_come_round(e: EntryModel)
    requires
        e.wf(),
        e.spec.kind is PingPong,
    ensures
        flipped_times(e, tap_count(e.spec.kind)) == e,
{
    let taps = tap_count(e.spec.kind);
    lemma_flipped_read(e, taps, taps);
    vstd::arithmetic::div_mod::lemma_mod_add_multiples_vanish(e.read as int, taps as int);
    assert(e.read % taps == e.read) by (nonlinear_arith)
        requires
            e.read < taps,
    ;
}

/// Once a write is done, readers see the texture that the writer got.
pub proof fn readers_see_the_write(entries: Seq<EntryModel>, name: Seq<char>)
    requires
        entries_wf(entries),
        position(entries, name) is Some,
    ensures
        write_of(entries, name) is Some,
        read_of(flip_one(entries, name), name) == Some((write_of(entries, name)->0).1),
{
    position_finds(entries, name);
    flip_keeps_the_shape(entries, name);
    position_follows_names(entries, flip_one(entries, name), name);
    let i = position(entries, name)->0;
    assert(entries[i].wf());
}

/// A write leaves every other resource as it was.
pub proof fn a_write_leaves_others_alone(
    entries: Seq<EntryModel>,
    name: Seq<char>,
    other: Seq<char>,
)
    requires
        name != other,
    ensures
        read_of(flip_one(entries, name), other) == read_of(entries, other),
        write_of(flip_one(entries, name), other) == write_of(entries, other),
{
    position_finds(entries, name);
    position_finds(entries, other);
    flip_keeps_the_shape(entries, name);
    position_follows_names(entries, flip_one(entries, name), other);
}

/// A texture registered under a name is what readers of that name see, as
/// long as the resource has a single tap.
pub proof fn readers_see_the_registered_texture(
    entries: Seq<EntryModel>,
    name: Seq<char>,
    tex: glow::NativeTexture,
)
    requires
        entries_wf(entries),
        position(entries, name) is Some,
        tap_count(entries[position(entries, name)->0].spec.kind) == 1,
    ensures
        read_of(with_external(entries, name, tex), name) == Some(tex),
{
    position_finds(entries, name);
    external_keeps_the_shape(entries, name, tex);
    position_follows_names(entries, with_external(entries, name, tex), name);
    assert(entries[position(entries, name)->0].wf());
}

/// The list of everything a table holds has the list of each entry in it.
pub(crate) proof fn lemma_released_at(entries: Seq<EntryModel>, i: int, r: Release)
    requires
        0 <= i < entries.len(),
        released(entries[i]).contains(r),
    ensures
        all_released(entries).contains(r),
    decreases entries.len(),
{
    let init = entries.drop_last();
    let (a, b) = (all_released(init), released(entries.last()));
    assert(all_released(entries) == a + b);
    if i < init.len() {
        assert(init[i] == entries[i]);
        lemma_released_at(init, i, r);
        let k = choose|k: int| 0 <= k < a.len() && a[k] == r;
        assert((a + b)[k] == r);
    } else {
        let k = choose|k: int| 0 <= k < b.len() && b[k] == r;
        assert((a + b)[a.len() + k] == r);
    }
}

/// Whatever a table holds, some entry holds.
proof fn lemma_released_by(entries: Seq<EntryModel>, r: Release) -> (i: int)
    requires
        all_released(entries).contains(r),
    ensures
        0 <= i < entries.len(),
        released(entries[i]).contains(r),
    decreases entries.len(),
{
    let k = choose|k: int| 0 <= k < all_released(entries).len() && all_released(entries)[k] == r;
    assert(entries.len() > 0);
    let init = entries.drop_last();
    let (a, b) = (all_released(init), released(entries.last()));
    assert(all_released(entries) == a + b);
    if k < a.len() {
        assert(a[k] == r);
        let i = lemma_released_by(init, r);
        assert(init[i] == entries[i]);
        i
    } else {
        assert(b[k - a.len()] == r);
        entries.len() - 1
    }
}

/// A freshly filled table releases every texture and framebuffer created for
/// it.
pub proof fn a_fresh_table_releases_everything(
    plan: Seq<AllocationModel>,
    handles: Seq<TapHandles>,
    i: int,
)
    requires
        handles_fit(plan, handles),
        0 <= i < plan.len(),
    ensures
        forall|k: int|
            0 <= k < handles[i].tex@.len() ==> all_released(installed(plan, handles)).contains(
                Release::Texture(#[trigger] handles[i].tex@[k]),
            ),
        forall|k: int|
            0 <= k < handles[i].fbo@.len() ==> all_released(installed(plan, handles)).contains(
                Release::Framebuffer(#[trigger] handles[i].fbo@[k]),
            ),
{
    let t = installed(plan, handles);
    let e = t[i];
    assert forall|k: int| 0 <= k < e.tex.len() implies all_released(t).contains(
        Release::Texture(#[trigger] handles[i].tex@[k]),
    ) by {
        assert(released(e)[k] == Release::Texture(e.tex[k]));
        lemma_released_at(t, i, Release::Texture(e.tex[k]));
    }
    assert forall|k: int| 0 <= k < e.fbo.len() implies all_released(t).contains(
        Release::Framebuffer(#[trigger] handles[i].fbo@[k]),
    ) by {
        assert(released(e)[e.tex.len() + k] == Release::Framebuffer(e.fbo[k]));
        lemma_released_at(t, i, Release::Framebuffer(e.fbo[k]));
    }
}

/// A flip changes nothing in what a table holds.
pub proof fn a_flip_keeps_what_is_held(entries: Seq<EntryModel>, name: Seq<char>)
    ensures
        all_released(flip_one(entries, name)) == all_released(entries),
{
    position_finds(entries, name);
    lemma_same_released(entries, flip_one(entries, name));
}

proof fn lemma_same_released(a: Seq<EntryModel>, b: Seq<EntryModel>)
    requires
        a.len() == b.len(),
        forall|i: int| 0 <= i < a.len() ==> released(#[trigger] a[i]) == released(b[i]),
    ensures
        all_released(a) == all_released(b),
    decreases a.len(),
{
    if a.len() > 0 {
        assert forall|i: int| 0 <= i < a.drop_last().len() implies released(
            #[trigger] a.drop_last()[i],
        ) == released(b.drop_last()[i]) by {
            assert(a.drop_last()[i] == a[i]);
        }
        lemma_same_released(a.drop_last(), b.drop_last());
        assert(released(a[a.len() - 1]) == released(b[a.len() - 1]));
    }
}

/// The texture registered from outside that readers of `name` see.
pub open spec fn registered(entries: Seq<EntryModel>, name: Seq<char>) -> Option<
    glow::NativeTexture,
> {
    match position(entries, name) {
        Some(i) => if !entries[i].owned && entries[i].tex.len() > 0 {
            Some(entries[i].tex[0])
        } else {
            None
        },
        None => None,
    }
}

/// Registering a texture loses nothing of the table's own: what it pushes out,
/// it hands back. Only the texture registered before it leaves.
pub proof fn registering_loses_nothing(
    entries: Seq<EntryModel>,
    name: Seq<char>,
    tex: glow::NativeTexture,
    r: Release,
)
    requires
        all_released(entries).contains(r),
        registered(entries, name) is Some ==> r != Release::Texture(registered(entries, name)->0),
    ensures
        all_released(with_external(entries, name, tex)).contains(r) || displaced(entries, name)
            is Some && r == Release::Texture(displaced(entries, name)->0),
{
    position_finds(entries, name);
    let after = with_external(entries, name, tex);
    let i = lemma_released_by(entries, r);
    if position(entries, name) == Some(i) {
        let (e, f) = (entries[i], after[i]);
        let list = released(e);
        let k = choose|k: int| 0 <= k < list.len() && list[k] == r;
        let n = e.tex.len();
        if k < n {
            assert(r == Release::Texture(e.tex[k]));
            if k > 0 {
                assert(released(f)[k] == r);
                lemma_released_at(after, i, r);
            }
        } else {
            assert(r == Release::Framebuffer(e.fbo[k - n]));
            assert(released(f)[f.tex.len() + (k - n)] == r);
            lemma_released_at(after, i, r);
        }
    } else {
        assert(after[i] == entries[i]);
        lemma_released_at(after, i, r);
    }
}

/// `list` without repetitions, each object where it first occurs.
pub open spec fn each_once(list: Seq<Release>) -> Seq<Release>
    decreases list.len(),
{
    if list.len() == 0 {
        Seq::empty()
    } else {
        let init = each_once(list.drop_last());
        if init.contains(list.last()) {
            init
        } else {
            init.push(list.last())
        }
    }
}

/// Dropping repetitions drops no object, and leaves none twice.
pub proof fn each_once_keeps_every_object(list: Seq<Release>)
    ensures
        each_once(list).no_duplicates(),
        forall|r: Release| #[trigger] each_once(list).contains(r) == list.contains(r),
    decreases list.len(),
{
    if list.len() > 0 {
        let prev = list.drop_last();
        let last = list.last();
        let d = each_once(prev);
        let all = each_once(list);
        each_once_keeps_every_object(prev);
        assert forall|r: Release| #[trigger] all.contains(r) == list.contains(r) by {
            if list.contains(r) {
                let k = choose|k: int| 0 <= k < list.len() && list[k] == r;
                if k < prev.len() {
                    assert(prev[k] == r);
                    assert(d.contains(r));
                    let m = choose|m: int| 0 <= m < d.len() && d[m] == r;
                    assert(all[m] == r);
                } else if !d.contains(last) {
                    assert(all[d.len() as int] == r);
                }
            }
            if all.contains(r) {
                let m = choose|m: int| 0 <= m < all.len() && all[m] == r;
                if m < d.len() {
                    assert(d[m] == r);
                    assert(d.contains(r));
                    let k = choose|k: int| 0 <= k < prev.len() && prev[k] == r;
                    assert(list[k] == r);
                } else {
                    assert(list[list.len() - 1] == r);
                }
            }
        }
    }
}

fn same_object(a: Release, b: Release) -> (r: bool)
    ensures
        r == (a == b),
{
    match (a, b) {
        (Release::Texture(x), Release::Texture(y)) => gpu::same_texture(x, y),
        (Release::Framebuffer(x), Release::Framebuffer(y)) => gpu::same_framebuffer(x, y),
        _ => false,
    }
}

/// Drops the repetitions in a list of objects.
pub fn without_repetitions(list: &Vec<Release>) -> (r: Vec<Release>)
    ensures
        r@ == each_once(list@),
{
    let mut out: Vec<Release> = Vec::new();
    for i in 0..list.len()
        invariant
            out@ == each_once(list@.take(i as int)),
    {
        proof {
            let t = list@.take(i + 1);
            assert(t.drop_last() =~= list@.take(i as int));
            assert(t.last() == list@[i as int]);
        }
        let mut known = false;
        for j in 0..out.len()
            invariant
                i < list@.len(),
                known == exists|k: int| 0 <= k < j && #[trigger] out@[k] == list@[i as int],
        {
            if same_object(out[j], list[i]) {
                known = true;
            }
        }
        assert(known == out@.contains(list@[i as int]));
        if !known {
            out.push(list[i]);
        }
    }
    assert(list@.take(list@.len() as int) =~= list@);
    out
}

/// A freshly filled table has no name twice.
pub proof fn a_fresh_table_has_unique_names(
    specs: Seq<SpecModel>,
    sizes: Sizes,
    handles: Seq<TapHandles>,
)
    ensures
        names_unique(installed(plan_of(specs, sizes), handles)),
{
    distinct_is_the_union(specs);
    let t = installed(plan_of(specs, sizes), handles);
    let d = distinct(specs);
    assert forall|i: int, j: int| 0 <= i < j < t.len() implies (#[trigger] t[i]).spec.name != (
    #[trigger] t[j]).spec.name by {
        assert(t[i].spec == d[i] && t[j].spec == d[j]);
    }
}

/// Finished writes leave every other resource as it was.
pub proof fn writes_leave_others_alone(
    entries: Seq<EntryModel>,
    names: Seq<Seq<char>>,
    other: Seq<char>,
)
    requires
        !names.contains(other),
    ensures
        read_of(flip_all(entries, names), other) == read_of(entries, other),
        write_of(flip_all(entries, names), other) == write_of(entries, other),
    decreases names.len(),
{
    if names.len() > 0 {
        let init = names.drop_last();
        assert(!init.contains(other)) by {
            if init.contains(other) {
                let k = choose|k: int| 0 <= k < init.len() && init[k] == other;
                assert(names[k] == other);
            }
        }
        assert(names[names.len() - 1] != other);
        writes_leave_others_alone(entries, init, other);
        a_write_leaves_others_alone(flip_all(entries, init), names.last(), other);
    }
}

/// Once all writes are done, readers of each name see the texture that its
/// writer got.
pub proof fn readers_see_all_writes(entries: Seq<EntryModel>, names: Seq<Seq<char>>, k: int)
    requires
        entries_wf(entries),
        names.no_duplicates(),
        0 <= k < names.len(),
        position(entries, names[k]) is Some,
    ensures
        write_of(entries, names[k]) is Some,
        read_of(flip_all(entries, names), names[k]) == Some((write_of(entries, names[k])->0).1),
    decreases names.len(),
{
    let init = names.drop_last();
    let mid = flip_all(entries, init);
    flips_keep_the_shape(entries, init);
    position_follows_names(entries, mid, names[k]);
    if k < init.len() {
        assert(init[k] == names[k]);
        readers_see_all_writes(entries, init, k);
        assert(names.last() != names[k]);
        a_write_leaves_others_alone(mid, names.last(), names[k]);
    } else {
        assert(!init.contains(names[k])) by {
            if init.contains(names[k]) {
                let j = choose|j: int| 0 <= j < init.len() && init[j] == names[k];
                assert(names[j] == names[k]);
            }
        }
        writes_leave_others_alone(entries, init, names[k]);
        readers_see_the_write(mid, names[k]);
    }
}

} // verus!
