use vstd::prelude::*;

use crate::dirty::RebuildOutcome;
use crate::voxel::{collision_voxel, is_water, Voxel};

verus! {

/// What to do once a dirty chunk's collision mesh is known.
#[derive(Clone, Copy, Debug, PartialEq, Eq, Structural)]
pub enum MeshVerdict {
    /// The chunk's voxel data is not available yet: retry later.
    Defer,
    /// The mesh has no vertex: the chunk gets no collider.
    NoCollider,
    /// Build a triangle-mesh collision shape from the mesh.
    BuildShape,
}

/// The last step of a rebuild.
#[derive(Clone, Copy, Debug, PartialEq, Eq, Structural)]
pub enum ColliderStep {
    /// Replace whatever collider the entity had by the new shape.
    Attach(u64),
    /// The shape could not be built from the mesh (degenerate geometry):
    /// attach nothing; the chunk is done.
    SkipDegenerate,
    /// The entity to attach to does not exist yet: retry later.
    Defer,
}

pub open spec fn mesh_verdict(data_present: bool, vertex_count: nat) -> MeshVerdict {
    if !data_present {
        MeshVerdict::Defer
    } else if vertex_count == 0 {
        MeshVerdict::NoCollider
    } else {
        MeshVerdict::BuildShape
    }
}

pub open spec fn collider_step(shape_built: bool, target: Option<u64>) -> ColliderStep {
    if !shape_built {
        ColliderStep::SkipDegenerate
    } else {
        match target {
            Some(e) => ColliderStep::Attach(e),
            None => ColliderStep::Defer,
        }
    }
}

/// The voxel data a chunk's collision mesh is built from.
pub open spec fn collision_input(voxels: Seq<Voxel>) -> Seq<Voxel> {
    voxels.map_values(|v: Voxel| collision_voxel(v))
}

/// Decides, from whether the chunk's voxel data was found and from the
/// vertex count of the mesh built from its filtered data, whether a shape
/// is to be built. An empty mesh never leads to a collider.
pub fn judge_mesh(data_present: bool, vertex_count: usize) -> (r: MeshVerdict)
    ensures
        r == mesh_verdict(data_present, vertex_count as nat),
        data_present && vertex_count == 0 ==> r == MeshVerdict::NoCollider,
{
    if !data_present {
        MeshVerdict::Defer
    } else if vertex_count == 0 {
        MeshVerdict::NoCollider
    } else {
        MeshVerdict::BuildShape
    }
}

/// Decides where a built shape goes: onto `target`, the entity of the
/// chunk at the same place in the rendered world, if it exists.
pub fn place_shape(shape_built: bool, target: Option<u64>) -> (r: ColliderStep)
    ensures
        r == collider_step(shape_built, target),
{
    if !shape_built {
        ColliderStep::SkipDegenerate
    } else {
        match target {
            Some(e) => ColliderStep::Attach(e),
            None => ColliderStep::Defer,
        }
    }
}

/// How the tracker records a rebuild that ended at `verdict`.
pub fn verdict_outcome(verdict: MeshVerdict) -> (r: RebuildOutcome)
    ensures
        r == (if verdict == MeshVerdict::Defer {
            RebuildOutcome::Deferred
        } else {
            RebuildOutcome::Finished
        }),
{
    match verdict {
        MeshVerdict::Defer => RebuildOutcome::Deferred,
        _ => RebuildOutcome::Finished,
    }
}

/// How the tracker records a rebuild that ended at `step`.
pub fn step_outcome(step: ColliderStep) -> (r: RebuildOutcome)
    ensures
        r == (if step == ColliderStep::Defer {
            RebuildOutcome::Deferred
        } else {
            RebuildOutcome::Finished
        }),
{
    match step {
        ColliderStep::Defer => RebuildOutcome::Deferred,
        _ => RebuildOutcome::Finished,
    }
}

/// The filtered voxel data holds no liquid, and every voxel that is not
/// liquid is kept where it was: a mesh of it has no geometry from liquid.
pub proof fn lemma_filter_removes_only_liquid(voxels: Seq<Voxel>)
    ensures
        collision_input(voxels).len() == voxels.len(),
        forall|i: int| 0 <= i < voxels.len() ==> !is_water(#[trigger] collision_input(voxels)[i]),
        forall|i: int|
            0 <= i < voxels.len() && !is_water(#[trigger] voxels[i]) ==> collision_input(voxels)[i]
                == voxels[i],
        forall|i: int|
            0 <= i < voxels.len() && is_water(#[trigger] voxels[i]) ==> collision_input(voxels)[i]
                == Voxel::Air,
{
}

/// Rebuilding twice from unchanged voxel data hands the mesher the same
/// input both times, and filtered data is left as it is by a second filter.
pub proof fn lemma_rebuild_idempotent(voxels: Seq<Voxel>)
    ensures
        collision_input(collision_input(voxels)) == collision_input(voxels),
{
    assert(collision_input(collision_input(voxels)) =~= collision_input(voxels));
}

} // verus!
