use voxel_terrain::collider::{
    judge_mesh, place_shape, step_outcome, verdict_outcome, ColliderStep, MeshVerdict,
};
use voxel_terrain::dirty::RebuildOutcome;
use voxel_terrain::voxel::{filter_for_collision, Voxel, GRAS, WATER};

#[test]
fn empty_mesh_gets_no_collider() {
    assert_eq!(judge_mesh(true, 0), MeshVerdict::NoCollider);
    assert_eq!(verdict_outcome(MeshVerdict::NoCollider), RebuildOutcome::Finished);
}

#[test]
fn missing_chunk_data_defers() {
    assert_eq!(judge_mesh(false, 0), MeshVerdict::Defer);
    assert_eq!(judge_mesh(false, 24), MeshVerdict::Defer);
    assert_eq!(verdict_outcome(MeshVerdict::Defer), RebuildOutcome::Deferred);
}

#[test]
fn mesh_with_vertices_builds_shape() {
    assert_eq!(judge_mesh(true, 24), MeshVerdict::BuildShape);
    assert_eq!(verdict_outcome(MeshVerdict::BuildShape), RebuildOutcome::Finished);
}

#[test]
fn shape_placement() {
    assert_eq!(place_shape(true, Some(77)), ColliderStep::Attach(77));
    assert_eq!(place_shape(true, None), ColliderStep::Defer);
    assert_eq!(place_shape(false, Some(77)), ColliderStep::SkipDegenerate);
    assert_eq!(place_shape(false, None), ColliderStep::SkipDegenerate);
    assert_eq!(step_outcome(ColliderStep::Attach(77)), RebuildOutcome::Finished);
    assert_eq!(step_outcome(ColliderStep::Defer), RebuildOutcome::Deferred);
    assert_eq!(step_outcome(ColliderStep::SkipDegenerate), RebuildOutcome::Finished);
}

#[test]
fn filter_drops_only_water() {
    let mut v = vec![
        Voxel::Solid(WATER),
        Voxel::Solid(GRAS),
        Voxel::Air,
        Voxel::Unset,
        Voxel::Solid(WATER),
        Voxel::Solid(7),
    ];
    filter_for_collision(&mut v);
    assert_eq!(
        v,
        vec![
            Voxel::Air,
            Voxel::Solid(GRAS),
            Voxel::Air,
            Voxel::Unset,
            Voxel::Air,
            Voxel::Solid(7),
        ]
    );
    assert!(v.iter().all(|x| !x.is_liquid()));
}

#[test]
fn filtering_twice_equals_once() {
    let mut once = vec![Voxel::Solid(WATER), Voxel::Solid(1), Voxel::Air];
    filter_for_collision(&mut once);
    let mut twice = once.clone();
    filter_for_collision(&mut twice);
    assert_eq!(once, twice);
}

#[test]
fn voxel_for_collision() {
    assert_eq!(Voxel::Solid(WATER).for_collision(), Voxel::Air);
    assert_eq!(Voxel::Solid(GRAS).for_collision(), Voxel::Solid(GRAS));
    assert!(Voxel::Solid(WATER).is_liquid());
    assert!(!Voxel::Air.is_liquid());
}
