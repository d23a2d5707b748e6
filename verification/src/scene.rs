//! The test scene: a spinning cube, an orbiting cube and a floor.

use vstd::prelude::*;

use crate::single;
use crate::single::Single;

verus! {

/// A mesh of the scene.
#[derive(Debug, Clone, Copy, PartialEq, Eq, Structural)]
pub enum MeshId {
    Cube,
    Floor,
}

/// Mesh data: six numbers per vertex, a position and a colour, and three
/// indices per triangle.
#[derive(Debug)]
pub struct MeshData {
    pub vertices: Vec<Single>,
    pub indices: Vec<u32>,
}

/// The pattern of -0.5.
pub const MINUS_HALF_BITS: u32 = 0xBF00_0000;

/// Corner `k` of face `face` of the cube. Faces come in the order +x, -x, +y,
/// -y, +z, -z; corners are numbered around the lower and then the upper z
/// side.
pub open spec fn corner(face: int, k: int) -> int {
    let q: Seq<int> = if face == 0 {
        seq![1, 2, 6, 5]
    } else if face == 1 {
        seq![0, 4, 7, 3]
    } else if face == 2 {
        seq![3, 7, 6, 2]
    } else if face == 3 {
        seq![0, 1, 5, 4]
    } else if face == 4 {
        seq![4, 5, 6, 7]
    } else {
        seq![0, 3, 2, 1]
    };
    q[k]
}

/// A coordinate of a corner: half a unit to either side of the origin.
pub open spec fn coordinate(corner: int, axis: int) -> u32 {
    let positive = if axis == 0 {
        corner == 1 || corner == 2 || corner == 5 || corner == 6
    } else if axis == 1 {
        corner == 2 || corner == 3 || corner == 6 || corner == 7
    } else {
        corner >= 4
    };
    if positive {
        single::HALF_BITS
    } else {
        MINUS_HALF_BITS
    }
}

/// A colour channel of a face: red, green, blue, yellow, magenta and cyan, on
/// a ground of a quarter.
pub open spec fn tint(face: int, channel: int) -> u32 {
    let bright = if face == 0 {
        channel == 0
    } else if face == 1 {
        channel == 1
    } else if face == 2 {
        channel == 2
    } else if face == 3 {
        channel != 2
    } else if face == 4 {
        channel != 1
    } else {
        channel != 0
    };
    if bright {
        single::ONE_BITS
    } else {
        single::QUARTER_BITS
    }
}

/// The corners of the two triangles of a quad.
pub open spec fn quad(j: int) -> int {
    seq![0int, 1, 2, 0, 2, 3][j]
}

/// Number `c` of corner `k` of face `face`.
pub open spec fn cube_number(face: int, k: int, c: int) -> u32 {
    if c < 3 {
        coordinate(corner(face, k), c)
    } else {
        tint(face, c - 3)
    }
}

/// All vertex numbers of the cube: four vertices per face.
pub open spec fn cube_vertices() -> Seq<Single> {
    Seq::new(144, |i: int| Single { bits: cube_number(i / 24, (i / 6) % 4, i % 6) })
}

/// All indices of the cube: two triangles per face, over its four vertices.
pub open spec fn cube_indices() -> Seq<u32> {
    Seq::new(36, |i: int| (4 * (i / 6) + quad(i % 6)) as u32)
}

fn corner_of(face: usize, k: usize) -> (r: usize)
    requires
        face < 6,
        k < 4,
    ensures
        r == corner(face as int, k as int),
{
    let q: [usize; 4] = if face == 0 {
        [1, 2, 6, 5]
    } else if face == 1 {
        [0, 4, 7, 3]
    } else if face == 2 {
        [3, 7, 6, 2]
    } else if face == 3 {
        [0, 1, 5, 4]
    } else if face == 4 {
        [4, 5, 6, 7]
    } else {
        [0, 3, 2, 1]
    };
    q[k]
}

fn coordinate_of(corner: usize, axis: usize) -> (r: u32)
    ensures
        r == coordinate(corner as int, axis as int),
{
    let positive = if axis == 0 {
        corner == 1 || corner == 2 || corner == 5 || corner == 6
    } else if axis == 1 {
        corner == 2 || corner == 3 || corner == 6 || corner == 7
    } else {
        corner >= 4
    };
    if positive {
        single::HALF_BITS
    } else {
        MINUS_HALF_BITS
    }
}

fn tint_of(face: usize, channel: usize) -> (r: u32)
    ensures
        r == tint(face as int, channel as int),
{
    let bright = if face == 0 {
        channel == 0
    } else if face == 1 {
        channel == 1
    } else if face == 2 {
        channel == 2
    } else if face == 3 {
        channel != 2
    } else if face == 4 {
        channel != 1
    } else {
        channel != 0
    };
    if bright {
        single::ONE_BITS
    } else {
        single::QUARTER_BITS
    }
}

/// The unit cube around the origin, each face in a colour of its own.
pub fn cube() -> (r: MeshData)
    ensures
        r.vertices@ == cube_vertices(),
        r.indices@ == cube_indices(),
{
    let mut vertices: Vec<Single> = Vec::new();
    for i in 0usize..144
        invariant
            vertices@ == cube_vertices().take(i as int),
    {
        let (face, k, c) = (i / 24, (i / 6) % 4, i % 6);
        let bits: u32 = if c < 3 {
            coordinate_of(corner_of(face, k), c)
        } else {
            tint_of(face, c - 3)
        };
        vertices.push(Single { bits });
        assert(vertices@ =~= cube_vertices().take(i + 1));
    }
    let mut indices: Vec<u32> = Vec::new();
    let pattern: [u32; 6] = [0, 1, 2, 0, 2, 3];
    for i in 0usize..36
        invariant
            pattern@ == seq![0u32, 1, 2, 0, 2, 3],
            indices@ == cube_indices().take(i as int),
    {
        let base: u32 = 4 * (i / 6) as u32;
        assert(pattern@[i as int % 6] == quad(i as int % 6));
        indices.push(base + pattern[i % 6]);
        assert(indices@ =~= cube_indices().take(i + 1));
    }
    assert(cube_vertices().take(144) =~= cube_vertices());
    assert(cube_indices().take(36) =~= cube_indices());
    MeshData { vertices, indices }
}

/// The vertex numbers of the floor, as patterns: a ten by ten quad at -0.8,
/// grey with a subtle tint.
pub open spec fn floor_bits() -> Seq<u32> {
    seq![
        0xC0A0_0000u32, 0xBF4C_CCCD, 0xC0A0_0000, 0x3EA3_D70A, 0x3EA8_F5C3, 0x3EB8_51EC,
        0x40A0_0000, 0xBF4C_CCCD, 0xC0A0_0000, 0x3EA3_D70A, 0x3EA8_F5C3, 0x3EB8_51EC,
        0x40A0_0000, 0xBF4C_CCCD, 0x40A0_0000, 0x3EB8_51EC, 0x3EBD_70A4, 0x3ECC_CCCD,
        0xC0A0_0000, 0xBF4C_CCCD, 0x40A0_0000, 0x3EB8_51EC, 0x3EBD_70A4, 0x3ECC_CCCD,
    ]
}

/// The floor.
pub fn floor() -> (r: MeshData)
    ensures
        r.vertices@ == floor_bits().map_values(|b: u32| Single { bits: b }),
        r.indices@ == seq![0u32, 1, 2, 0, 2, 3],
{
    let table: [u32; 24] = [
        0xC0A0_0000, 0xBF4C_CCCD, 0xC0A0_0000, 0x3EA3_D70A, 0x3EA8_F5C3, 0x3EB8_51EC,
        0x40A0_0000, 0xBF4C_CCCD, 0xC0A0_0000, 0x3EA3_D70A, 0x3EA8_F5C3, 0x3EB8_51EC,
        0x40A0_0000, 0xBF4C_CCCD, 0x40A0_0000, 0x3EB8_51EC, 0x3EBD_70A4, 0x3ECC_CCCD,
        0xC0A0_0000, 0xBF4C_CCCD, 0x40A0_0000, 0x3EB8_51EC, 0x3EBD_70A4, 0x3ECC_CCCD,
    ];
    assert(table@ =~= floor_bits());
    let ghost all = floor_bits().map_values(|b: u32| Single { bits: b });
    let mut vertices: Vec<Single> = Vec::new();
    for i in 0usize..24
        invariant
            table@ == floor_bits(),
            all == floor_bits().map_values(|b: u32| Single { bits: b }),
            vertices@ == all.take(i as int),
    {
        vertices.push(Single { bits: table[i] });
        assert(vertices@ =~= all.take(i + 1));
    }
    assert(all.take(24) =~= all);
    let mut indices: Vec<u32> = Vec::new();
    indices.push(0);
    indices.push(1);
    indices.push(2);
    indices.push(0);
    indices.push(2);
    indices.push(3);
    assert(indices@ =~= seq![0u32, 1, 2, 0, 2, 3]);
    MeshData { vertices, indices }
}

/// Every corner of a face lies in the plane of the face.
pub proof fn faces_are_flat(face: int, k: int)
    requires
        0 <= face < 6,
        0 <= k < 4,
    ensures
        coordinate(corner(face, k), face / 2) == if face % 2 == 0 {
            single::HALF_BITS
        } else {
            MINUS_HALF_BITS
        },
{
    assert(face == 0 || face == 1 || face == 2 || face == 3 || face == 4 || face == 5);
    assert(k == 0 || k == 1 || k == 2 || k == 3);
}

/// Every index of the cube names one of its vertices.
pub proof fn cube_indices_are_in_range(i: int)
    requires
        0 <= i < 36,
    ensures
        cube_indices()[i] * 6 + 6 <= cube_vertices().len(),
{
    let j = i % 6;
    assert(j == 0 || j == 1 || j == 2 || j == 3 || j == 4 || j == 5);
}

/// One object to draw: its mesh, its model matrix, and the view-projection
/// and model matrix it had in the frame before.
#[derive(Debug, Clone, Copy)]
pub struct SceneDraw<M> {
    pub mesh: MeshId,
    pub model: M,
    pub previous: Option<(M, M)>,
}

/// What a frame of the scene consists of.
#[derive(Debug)]
pub struct SceneFrame<M> {
    pub draws: Vec<SceneDraw<M>>,
    /// The view-projection of the frame before; that of this frame when there
    /// was none.
    pub vp_prev: M,
}

/// The matrices of the frame before, for motion. A matrix is any type.
#[derive(Debug)]
pub struct Scene<M> {
    prev_vp: M,
    prev_models: [M; 3],
    initialized: bool,
}

/// The matrices of a frame: view-projection and models.
pub struct SceneModel<M> {
    pub vp: M,
    pub models: Seq<M>,
}

/// The mesh and the model of each draw. The floor stands still on the third
/// model; the cube spins on the first and orbits on the second.
pub open spec fn draw_list() -> Seq<(MeshId, int)> {
    seq![(MeshId::Floor, 2), (MeshId::Cube, 0), (MeshId::Cube, 1)]
}

/// The draws of a frame after the frame `before`.
pub open spec fn scene_draws<M>(before: Option<SceneModel<M>>, models: Seq<M>) -> Seq<
    SceneDraw<M>,
> {
    Seq::new(
        3,
        |i: int|
            SceneDraw {
                mesh: draw_list()[i].0,
                model: models[draw_list()[i].1],
                previous: match before {
                    Some(b) => Some((b.vp, b.models[draw_list()[i].1])),
                    None => None,
                },
            },
    )
}

/// The view-projection to measure motion against.
pub open spec fn vp_before<M>(before: Option<SceneModel<M>>, vp: M) -> M {
    match before {
        Some(b) => b.vp,
        None => vp,
    }
}

impl<M: Copy> Scene<M> {
    /// The frame before, if there was one.
    pub closed spec fn before(&self) -> Option<SceneModel<M>> {
        if self.initialized {
            Some(SceneModel { vp: self.prev_vp, models: self.prev_models@ })
        } else {
            None
        }
    }

    /// A scene with no frame before.
    pub fn new(identity: M) -> (r: Scene<M>)
        ensures
            r.before() is None,
    {
        Scene { prev_vp: identity, prev_models: [identity, identity, identity], initialized: false }
    }

    /// Lists the draws of a frame, and remembers its matrices for the next.
    pub fn render(&mut self, vp: M, models: [M; 3]) -> (r: SceneFrame<M>)
        ensures
            r.draws@ == scene_draws(old(self).before(), models@),
            r.vp_prev == match old(self).before() {
                Some(b) => b.vp,
                None => vp,
            },
            r.vp_prev == vp_before(old(self).before(), vp),
            final(self).before() == Some(SceneModel { vp, models: models@ }),
    {
        let mut draws: Vec<SceneDraw<M>> = Vec::new();
        draws.push(self.draw(MeshId::Floor, &models, 2));
        draws.push(self.draw(MeshId::Cube, &models, 0));
        draws.push(self.draw(MeshId::Cube, &models, 1));
        assert(draws@ =~= scene_draws(self.before(), models@));
        let vp_prev = if self.initialized {
            self.prev_vp
        } else {
            vp
        };
        self.prev_vp = vp;
        self.prev_models = models;
        self.initialized = true;
        SceneFrame { draws, vp_prev }
    }

    fn draw(&self, mesh: MeshId, models: &[M; 3], at: usize) -> (r: SceneDraw<M>)
        requires
            at < 3,
        ensures
            r == (SceneDraw {
                mesh,
                model: models@[at as int],
                previous: match self.before() {
                    Some(b) => Some((b.vp, b.models[at as int])),
                    None => None,
                },
            }),
    {
        let previous = if self.initialized {
            Some((self.prev_vp, self.prev_models[at]))
        } else {
            None
        };
        SceneDraw { mesh, model: models[at], previous }
    }
}

/// The motion of a draw is measured against the same object: its previous
/// model is the model that this very draw had in the frame before.
pub proof fn motion_compares_an_object_with_itself<M>(
    start: Option<SceneModel<M>>,
    first: SceneModel<M>,
    second: Seq<M>,
    i: int,
)
    requires
        0 <= i < 3,
        first.models.len() == 3,
    ensures
        scene_draws(Some(first), second)[i].previous == Some(
            (first.vp, scene_draws(start, first.models)[i].model),
        ),
        scene_draws(Some(first), second)[i].mesh == scene_draws(start, first.models)[i].mesh,
{
}

} // verus!
