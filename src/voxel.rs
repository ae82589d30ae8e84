use vstd::prelude::*;

verus! {

/// Material of liquid voxels; it never takes part in collision geometry.
pub const WATER: u8 = 3;

/// Material of ground voxels.
pub const GRAS: u8 = 0;

/// The state of one voxel.
#[derive(Clone, Copy, Debug, PartialEq, Eq, Structural)]
pub enum Voxel {
    /// Placeholder before generation.
    Unset,
    Air,
    Solid(u8),
}

/// An integer voxel coordinate.
#[derive(Clone, Copy, Debug, PartialEq, Eq, Structural)]
pub struct VoxelCoord {
    pub x: i32,
    pub y: i32,
    pub z: i32,
}

/// What a voxel becomes in the collision space: liquid turns into air,
/// every other state is kept.
pub open spec fn collision_voxel(v: Voxel) -> Voxel {
    match v {
        Voxel::Solid(m) => if m == WATER {
            Voxel::Air
        } else {
            v
        },
        _ => v,
    }
}

/// Whether a voxel is liquid.
pub open spec fn is_water(v: Voxel) -> bool {
    v == Voxel::Solid(WATER)
}

impl Voxel {
    /// The voxel as the collision space sees it.
    pub fn for_collision(self) -> (r: Voxel)
        ensures
            r == collision_voxel(self),
    {
        match self {
            Voxel::Solid(m) => if m == WATER {
                Voxel::Air
            } else {
                self
            },
            _ => self,
        }
    }

    /// Whether the voxel is liquid.
    pub fn is_liquid(self) -> (r: bool)
        ensures
            r == is_water(self),
    {
        match self {
            Voxel::Solid(m) => m == WATER,
            _ => false,
        }
    }
}

/// Replaces every liquid voxel of a chunk's data by air, in place, and
/// keeps every other voxel and the length.
pub fn filter_for_collision(voxels: &mut Vec<Voxel>)
    ensures
        final(voxels)@ == old(voxels)@.map_values(|v: Voxel| collision_voxel(v)),
{
    let n = voxels.len();
    let mut i: usize = 0;
    while i < n
        invariant
            n == old(voxels)@.len(),
            voxels@.len() == n,
            i <= n,
            forall|j: int| 0 <= j < i ==> voxels@[j] == collision_voxel(old(voxels)@[j]),
            forall|j: int| i <= j < n ==> voxels@[j] == old(voxels)@[j],
        decreases n - i,
    {
        let v = voxels[i].for_collision();
        voxels.set(i, v);
        i = i + 1;
    }
    assert(voxels@ =~= old(voxels)@.map_values(|v: Voxel| collision_voxel(v)));
}

} // verus!
