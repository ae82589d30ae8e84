use std::cell::Cell;

use noise::{HybridMulti, NoiseFn, Perlin};
use voxel_terrain::sampler::{voxel_in_column, SamplerConfig, VoxelSampler};
use voxel_terrain::voxel::{Voxel, VoxelCoord, GRAS, WATER};

fn at(x: i32, y: i32, z: i32) -> VoxelCoord {
    VoxelCoord { x, y, z }
}

fn plain() -> SamplerConfig {
    SamplerConfig { sea_level: 1, filter_liquid: false }
}

#[test]
fn column_voxel_formula() {
    let cfg = plain();
    assert_eq!(voxel_in_column(cfg, 0, 10), Voxel::Solid(WATER));
    assert_eq!(voxel_in_column(cfg, -40, -100), Voxel::Solid(WATER));
    assert_eq!(voxel_in_column(cfg, 1, 10), Voxel::Solid(GRAS));
    assert_eq!(voxel_in_column(cfg, 9, 10), Voxel::Solid(GRAS));
    assert_eq!(voxel_in_column(cfg, 10, 10), Voxel::Air);
    assert_eq!(voxel_in_column(cfg, 1, 1), Voxel::Air);
    let filtered = SamplerConfig { sea_level: 1, filter_liquid: true };
    assert_eq!(voxel_in_column(filtered, 0, 10), Voxel::Air);
    assert_eq!(voxel_in_column(filtered, 5, 10), Voxel::Solid(GRAS));
}

#[test]
fn sea_level_law_both_modes() {
    let height = |_x: i32, _z: i32| 100i64;
    let mut s = VoxelSampler::new(plain());
    let mut f = VoxelSampler::new(SamplerConfig { sea_level: 1, filter_liquid: true });
    for y in [-1000, -1, 0] {
        assert_eq!(s.sample(at(3, y, 4), &height), Voxel::Solid(WATER));
        assert_eq!(f.sample(at(3, y, 4), &height), Voxel::Air);
    }
    assert_eq!(s.cached_columns(), 0);
    assert_eq!(f.cached_columns(), 0);
}

#[test]
fn cache_hit_skips_height() {
    let calls = Cell::new(0u32);
    let height = |x: i32, z: i32| {
        calls.set(calls.get() + 1);
        (x + z) as i64
    };
    let mut s = VoxelSampler::new(plain());
    assert_eq!(s.sample(at(7, 3, 5), &height), Voxel::Solid(GRAS));
    assert_eq!(calls.get(), 1);
    assert_eq!(s.cached_height(7, 5), Some(12));
    assert_eq!(s.sample(at(7, 20, 5), &height), Voxel::Air);
    assert_eq!(s.sample(at(7, 11, 5), &height), Voxel::Solid(GRAS));
    assert_eq!(s.sample(at(7, 12, 5), &height), Voxel::Air);
    assert_eq!(calls.get(), 1);
    assert_eq!(s.cached_columns(), 1);
    assert_eq!(s.sample(at(5, 3, 7), &height), Voxel::Solid(GRAS));
    assert_eq!(calls.get(), 2);
    assert_eq!(s.cached_columns(), 2);
    assert_eq!(s.cached_height(5, 7), Some(12));
    assert_eq!(s.cached_height(6, 6), None);
}

#[test]
fn columns_do_not_collide() {
    let height = |x: i32, z: i32| if x < 0 { 1000i64 } else { z as i64 };
    let mut s = VoxelSampler::new(plain());
    let cols = [(0, 0), (-1, 0), (0, -1), (i32::MIN, i32::MAX), (i32::MAX, i32::MIN), (-1, -1)];
    for (x, z) in cols {
        s.sample(at(x, 5, z), &height);
    }
    assert_eq!(s.cached_columns(), cols.len());
    assert_eq!(s.cached_height(-1, 0), Some(1000));
    assert_eq!(s.cached_height(0, -1), Some(-1));
    assert_eq!(s.cached_height(i32::MAX, i32::MIN), Some(i32::MIN as i64));
}

#[test]
fn sampling_is_deterministic_whatever_the_order() {
    let height = |x: i32, z: i32| ((x * 7 + z * 3) % 23) as i64;
    let coords: Vec<VoxelCoord> = (-4..4)
        .flat_map(|x| (-3..25).map(move |y| at(x, y, x * 2 - 1)))
        .collect();
    let mut a = VoxelSampler::new(plain());
    let first: Vec<Voxel> = coords.iter().map(|c| a.sample(*c, &height)).collect();
    let mut b = VoxelSampler::new(plain());
    let mut second: Vec<Voxel> = coords.iter().rev().map(|c| b.sample(*c, &height)).collect();
    second.reverse();
    assert_eq!(first, second);
    let again: Vec<Voxel> = coords.iter().map(|c| a.sample(*c, &height)).collect();
    assert_eq!(first, again);
}

#[test]
fn end_to_end_example_with_noise() {
    let mut noise = HybridMulti::<Perlin>::new(1234);
    noise.octaves = 5;
    noise.frequency = 1.1;
    noise.lacunarity = 2.8;
    noise.persistence = 0.4;
    let calls = Cell::new(0u32);
    let height = |x: i32, z: i32| {
        calls.set(calls.get() + 1);
        let h = noise.get([x as f64 / 1000.0, z as f64 / 1000.0]) * 50.0;
        h.ceil() as i64
    };
    let mut s = VoxelSampler::new(plain());
    assert_eq!(s.sample(at(5, 0, 5), &height), Voxel::Solid(WATER));
    assert_eq!(calls.get(), 0);
    assert_eq!(s.sample(at(5, 200, 5), &height), Voxel::Air);
    for y in 1..60 {
        s.sample(at(5, y, 5), &height);
    }
    assert_eq!(calls.get(), 1);
    assert_eq!(s.cached_columns(), 1);
}
