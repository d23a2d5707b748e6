//! GL work as data, and the cache of uniform locations.

use vstd::prelude::*;

use crate::single::Single;
use crate::text;

verus! {

/// A uniform's value.
#[derive(Debug, Clone, Copy)]
pub enum UniformValue {
    Float(Single),
    Int(i32),
    Pair(Single, Single),
    /// A column-major matrix.
    Matrix([Single; 16]),
}

/// One GL action. Actions are carried out in order.
#[derive(Debug, Clone, Copy)]
pub enum Command {
    /// Begin an elapsed-time query.
    BeginQuery(glow::NativeQuery),
    /// End the running elapsed-time query.
    EndQuery,
    /// Bind a texture level as a write-only image unit.
    BindImage { unit: u32, texture: glow::NativeTexture, format: u32 },
    /// Draw into a framebuffer, over its whole area.
    BindTarget { framebuffer: glow::NativeFramebuffer, width: u32, height: u32 },
    /// Make a program current.
    UseProgram(Option<glow::NativeProgram>),
    /// Bind a texture to a sampler unit.
    BindTexture { unit: u32, texture: glow::NativeTexture },
    /// Set a uniform of `program`; `key` names the program in the cache.
    Uniform { key: usize, program: glow::NativeProgram, name: &'static str, value: UniformValue },
    /// Dispatch compute groups, then wait for the images they wrote.
    Dispatch { x: u32, y: u32, z: u32 },
    /// Draw the fullscreen triangle.
    Draw,
}

/// What a [`UniformValue`] holds.
#[verifier::ext_equal]
pub enum UniformModel {
    Float(Single),
    Int(i32),
    Pair(Single, Single),
    Matrix(Seq<Single>),
}

/// What a [`Command`] does.
#[verifier::ext_equal]
pub enum CommandModel {
    BeginQuery(glow::NativeQuery),
    EndQuery,
    BindImage { unit: nat, texture: glow::NativeTexture, format: u32 },
    BindTarget { framebuffer: glow::NativeFramebuffer, width: u32, height: u32 },
    UseProgram(Option<glow::NativeProgram>),
    BindTexture { unit: nat, texture: glow::NativeTexture },
    Uniform { key: nat, program: glow::NativeProgram, name: Seq<char>, value: UniformModel },
    Dispatch { x: nat, y: nat, z: nat },
    Draw,
}

impl View for UniformValue {
    type V = UniformModel;

    open spec fn view(&self) -> UniformModel {
        match *self {
            UniformValue::Float(v) => UniformModel::Float(v),
            UniformValue::Int(v) => UniformModel::Int(v),
            UniformValue::Pair(x, y) => UniformModel::Pair(x, y),
            UniformValue::Matrix(m) => UniformModel::Matrix(m@),
        }
    }
}

impl View for Command {
    type V = CommandModel;

    open spec fn view(&self) -> CommandModel {
        match *self {
            Command::BeginQuery(q) => CommandModel::BeginQuery(q),
            Command::EndQuery => CommandModel::EndQuery,
            Command::BindImage { unit, texture, format } => CommandModel::BindImage {
                unit: unit as nat,
                texture,
                format,
            },
            Command::BindTarget { framebuffer, width, height } => CommandModel::BindTarget {
                framebuffer,
                width,
                height,
            },
            Command::UseProgram(p) => CommandModel::UseProgram(p),
            Command::BindTexture { unit, texture } => CommandModel::BindTexture {
                unit: unit as nat,
                texture,
            },
            Command::Uniform { key, program, name, value } => CommandModel::Uniform {
                key: key as nat,
                program,
                name: name@,
                value: value@,
            },
            Command::Dispatch { x, y, z } => CommandModel::Dispatch {
                x: x as nat,
                y: y as nat,
                z: z as nat,
            },
            Command::Draw => CommandModel::Draw,
        }
    }
}

/// What a command list does.
pub open spec fn command_models(list: Seq<Command>) -> Seq<CommandModel> {
    list.map_values(|c: Command| c@)
}

/// Appending to a list appends to what it does.
pub proof fn pushing_a_command(list: Seq<Command>, c: Command)
    ensures
        command_models(list.push(c)) == command_models(list).push(c@),
{
    assert(command_models(list.push(c)) =~= command_models(list).push(c@));
}

/// Cached uniform locations. A location belongs to a program, so it is looked
/// up once per program key and name; that a program lacks the uniform is
/// remembered too.
#[derive(Debug)]
pub struct UniformCache {
    entries: Vec<CacheEntry>,
}

#[derive(Debug)]
struct CacheEntry {
    key: usize,
    name: &'static str,
    location: Option<glow::NativeUniformLocation>,
}

impl UniformCache {
    /// The cached lookups by program key and uniform name.
    pub closed spec fn known(&self) -> Map<(nat, Seq<char>), Option<glow::NativeUniformLocation>> {
        cache_map(self.entries@)
    }

    /// An empty cache.
    pub fn new() -> (r: UniformCache)
        ensures
            r.known() == Map::<(nat, Seq<char>), Option<glow::NativeUniformLocation>>::empty(),
    {
        UniformCache { entries: Vec::new() }
    }

    /// The cached result for `name` of program `key`: `None` when it has not
    /// been looked up yet, `Some(None)` when the program lacks it.
    pub fn lookup(&self, key: usize, name: &str) -> (r: Option<
        Option<glow::NativeUniformLocation>,
    >)
        ensures
            r == if self.known().dom().contains((key as nat, name@)) {
                Some(self.known()[(key as nat, name@)])
            } else {
                None
            },
    {
        let mut i: usize = self.entries.len();
        while i > 0
            invariant
                i <= self.entries@.len(),
                forall|j: int|
                    i <= j < self.entries@.len() ==> entry_key(#[trigger] self.entries@[j]) != (
                        key as nat,
                        name@,
                    ),
            decreases i,
        {
            let e = &self.entries[i - 1];
            if e.key == key && text::same(e.name, name) {
                proof {
                    lemma_cache_hit(self.entries@, i - 1, (key as nat, name@));
                }
                return Some(e.location);
            }
            i = i - 1;
        }
        proof {
            lemma_cache_miss(self.entries@, (key as nat, name@));
        }
        None
    }

    /// Remembers the location of `name` in program `key`.
    pub fn insert(
        &mut self,
        key: usize,
        name: &'static str,
        location: Option<glow::NativeUniformLocation>,
    )
        ensures
            final(self).known() == old(self).known().insert((key as nat, name@), location),
    {
        self.entries.push(CacheEntry { key, name, location });
        assert(self.entries@.drop_last() =~= old(self).entries@);
    }
}

spec fn entry_key(e: CacheEntry) -> (nat, Seq<char>) {
    (e.key as nat, e.name@)
}

spec fn cache_map(entries: Seq<CacheEntry>) -> Map<
    (nat, Seq<char>),
    Option<glow::NativeUniformLocation>,
>
    decreases entries.len(),
{
    if entries.len() == 0 {
        Map::empty()
    } else {
        cache_map(entries.drop_last()).insert(entry_key(entries.last()), entries.last().location)
    }
}

proof fn lemma_cache_hit(entries: Seq<CacheEntry>, i: int, k: (nat, Seq<char>))
    requires
        0 <= i < entries.len(),
        entry_key(entries[i]) == k,
        forall|j: int| i < j < entries.len() ==> entry_key(#[trigger] entries[j]) != k,
    ensures
        cache_map(entries).dom().contains(k),
        cache_map(entries)[k] == entries[i].location,
    decreases entries.len(),
{
    if i < entries.len() - 1 {
        let init = entries.drop_last();
        assert forall|j: int| i < j < init.len() implies entry_key(#[trigger] init[j]) != k by {
            assert(init[j] == entries[j]);
        }
        assert(init[i] == entries[i]);
        lemma_cache_hit(init, i, k);
        assert(entry_key(entries[entries.len() - 1]) != k);
    }
}

proof fn lemma_cache_miss(entries: Seq<CacheEntry>, k: (nat, Seq<char>))
    requires
        forall|j: int| 0 <= j < entries.len() ==> entry_key(#[trigger] entries[j]) != k,
    ensures
        !cache_map(entries).dom().contains(k),
    decreases entries.len(),
{
    if entries.len() > 0 {
        let init = entries.drop_last();
        assert forall|j: int| 0 <= j < init.len() implies entry_key(#[trigger] init[j]) != k by {
            assert(init[j] == entries[j]);
        }
        lemma_cache_miss(init, k);
        assert(entry_key(entries[entries.len() - 1]) != k);
    }
}

} // verus!
