use std::collections::HashMap;
use vstd::prelude::*;

use crate::voxel::{Voxel, VoxelCoord, GRAS, WATER};

verus! {

broadcast use vstd::std_specs::hash::group_hash_axioms;

/// Fixed parameters of a sampler.
///
/// `sea_level` is the first height that is not sea. With `filter_liquid`
/// the sea is sampled as air, so that it never yields collision geometry.
#[derive(Clone, Copy, Debug, PartialEq, Eq, Structural)]
pub struct SamplerConfig {
    pub sea_level: i32,
    pub filter_liquid: bool,
}

/// What the sampler yields below sea level.
pub open spec fn sea_voxel(cfg: SamplerConfig) -> Voxel {
    if cfg.filter_liquid {
        Voxel::Air
    } else {
        Voxel::Solid(WATER)
    }
}

/// The voxel at height `y` of a column whose ground reaches up to, but not
/// including, `ceiling`.
pub open spec fn column_voxel(cfg: SamplerConfig, y: int, ceiling: int) -> Voxel {
    if y < cfg.sea_level {
        sea_voxel(cfg)
    } else if y < ceiling {
        Voxel::Solid(GRAS)
    } else {
        Voxel::Air
    }
}

/// The voxel at `pos` of the terrain whose column ceilings are `field`.
pub open spec fn field_voxel(
    cfg: SamplerConfig,
    pos: VoxelCoord,
    field: spec_fn(i32, i32) -> i64,
) -> Voxel {
    column_voxel(cfg, pos.y as int, field(pos.x, pos.z) as int)
}

/// Every value that `height` can return for a column is that column's
/// value in `field`.
pub open spec fn computes_field<F: Fn(i32, i32) -> i64>(
    height: F,
    field: spec_fn(i32, i32) -> i64,
) -> bool {
    forall|x: i32, z: i32, h: i64| #[trigger] height.ensures((x, z), h) ==> h == field(x, z)
}

/// Below sea level the terrain is the sea, whatever the height field: solid
/// liquid, or air when liquid is filtered out.
pub proof fn lemma_sea_level(cfg: SamplerConfig, pos: VoxelCoord, field: spec_fn(i32, i32) -> i64)
    requires
        pos.y < cfg.sea_level,
    ensures
        field_voxel(cfg, pos, field) == (if cfg.filter_liquid {
            Voxel::Air
        } else {
            Voxel::Solid(WATER)
        }),
{
}

/// The key under which a column is cached: `x` in the high half, `z` in the
/// low half, each shifted to be non-negative.
pub open spec fn column_key(x: i32, z: i32) -> u64 {
    ((x + 0x8000_0000) * 0x1_0000_0000 + (z + 0x8000_0000)) as u64
}

proof fn lemma_digits_injective(a: int, b: int, c: int, d: int)
    requires
        0 <= a < 0x1_0000_0000,
        0 <= b < 0x1_0000_0000,
        0 <= c < 0x1_0000_0000,
        0 <= d < 0x1_0000_0000,
        a * 0x1_0000_0000 + b == c * 0x1_0000_0000 + d,
    ensures
        a == c,
        b == d,
{
    if a < c {
        assert(a * 0x1_0000_0000 + 0x1_0000_0000 <= c * 0x1_0000_0000) by (nonlinear_arith)
            requires
                a < c,
        ;
    } else if c < a {
        assert(c * 0x1_0000_0000 + 0x1_0000_0000 <= a * 0x1_0000_0000) by (nonlinear_arith)
            requires
                c < a,
        ;
    }
}

proof fn lemma_key_in_range(x: i32, z: i32)
    ensures
        0 <= (x + 0x8000_0000) * 0x1_0000_0000 + (z + 0x8000_0000) <= u64::MAX,
{
    let a = x + 0x8000_0000;
    assert(0 <= a * 0x1_0000_0000 <= 0xFFFF_FFFF * 0x1_0000_0000) by (nonlinear_arith)
        requires
            0 <= a <= 0xFFFF_FFFF,
    ;
}

/// Two columns share a cache key only if they are the same column.
pub proof fn lemma_column_key_injective(x1: i32, z1: i32, x2: i32, z2: i32)
    ensures
        column_key(x1, z1) == column_key(x2, z2) ==> x1 == x2 && z1 == z2,
{
    lemma_key_in_range(x1, z1);
    lemma_key_in_range(x2, z2);
    if column_key(x1, z1) == column_key(x2, z2) {
        lemma_digits_injective(x1 + 0x8000_0000, z1 + 0x8000_0000, x2 + 0x8000_0000, z2 + 0x8000_0000);
    }
}

fn key_of_column(x: i32, z: i32) -> (r: u64)
    ensures
        r == column_key(x, z),
{
    proof {
        lemma_key_in_range(x, z);
    }
    let a = (x as i64 + 0x8000_0000) as u64;
    let b = (z as i64 + 0x8000_0000) as u64;
    assert(a * 0x1_0000_0000 <= 0xFFFF_FFFF * 0x1_0000_0000) by (nonlinear_arith)
        requires
            a <= 0xFFFF_FFFF,
    ;
    a * 0x1_0000_0000 + b
}

/// The voxel at height `y` of a column with ground below `ceiling`.
pub fn voxel_in_column(cfg: SamplerConfig, y: i32, ceiling: i64) -> (r: Voxel)
    ensures
        r == column_voxel(cfg, y as int, ceiling as int),
{
    if y < cfg.sea_level {
        if cfg.filter_liquid {
            Voxel::Air
        } else {
            Voxel::Solid(WATER)
        }
    } else if (y as i64) < ceiling {
        Voxel::Solid(GRAS)
    } else {
        Voxel::Air
    }
}

/// Maps a voxel coordinate to a voxel state, memoising the height of each
/// column it has looked at.
pub struct VoxelSampler {
    config: SamplerConfig,
    cache: HashMap<u64, i64>,
}

impl VoxelSampler {
    /// The configuration the sampler was built with.
    pub closed spec fn spec_config(&self) -> SamplerConfig {
        self.config
    }

    /// The cached ceiling of each column looked at so far, by column key.
    pub closed spec fn heights(&self) -> Map<u64, i64> {
        self.cache@
    }

    /// Whether column `(x, z)` has a cached ceiling.
    pub open spec fn has_column(&self, x: i32, z: i32) -> bool {
        self.heights().contains_key(column_key(x, z))
    }

    /// The cached ceiling of column `(x, z)`.
    pub open spec fn column(&self, x: i32, z: i32) -> i64 {
        self.heights()[column_key(x, z)]
    }

    /// Every cached ceiling is the one `field` gives for its column.
    pub open spec fn agrees_with(&self, field: spec_fn(i32, i32) -> i64) -> bool {
        forall|x: i32, z: i32| #[trigger]
            self.has_column(x, z) ==> self.column(x, z) == field(x, z)
    }

    /// A sampler with an empty cache.
    pub fn new(config: SamplerConfig) -> (r: VoxelSampler)
        ensures
            r.spec_config() == config,
            r.heights() == Map::<u64, i64>::empty(),
    {
        VoxelSampler { config, cache: HashMap::new() }
    }

    /// The configuration the sampler was built with.
    pub fn config(&self) -> (r: SamplerConfig)
        ensures
            r == self.spec_config(),
    {
        self.config
    }

    /// Number of columns whose height was computed, once each.
    pub fn cached_columns(&self) -> (r: usize)
        ensures
            r == self.heights().len(),
    {
        self.cache.len()
    }

    /// The voxel at `pos`.
    ///
    /// Below sea level no height is needed. Otherwise the ceiling of the
    /// column comes from the cache or, the first time the column is seen,
    /// from `height`, whose answer is then cached.
    pub fn sample<F: Fn(i32, i32) -> i64>(&mut self, pos: VoxelCoord, height: &F) -> (r: Voxel)
        requires
            forall|x: i32, z: i32| height.requires((x, z)),
        ensures
            final(self).spec_config() == old(self).spec_config(),
            pos.y < old(self).spec_config().sea_level ==> {
                &&& r == sea_voxel(old(self).spec_config())
                &&& final(self).heights() == old(self).heights()
            },
            pos.y >= old(self).spec_config().sea_level ==> {
                &&& final(self).has_column(pos.x, pos.z)
                &&& r == column_voxel(
                    old(self).spec_config(),
                    pos.y as int,
                    final(self).column(pos.x, pos.z) as int,
                )
                &&& old(self).has_column(pos.x, pos.z) ==> final(self).heights() == old(
                    self,
                ).heights()
                &&& !old(self).has_column(pos.x, pos.z) ==> {
                    &&& height.ensures((pos.x, pos.z), final(self).column(pos.x, pos.z))
                    &&& final(self).heights() == old(self).heights().insert(
                        column_key(pos.x, pos.z),
                        final(self).column(pos.x, pos.z),
                    )
                }
            },
            forall|field: spec_fn(i32, i32) -> i64|
                old(self).agrees_with(field) && computes_field(*height, field) ==> {
                    &&& #[trigger] final(self).agrees_with(field)
                    &&& r == field_voxel(old(self).spec_config(), pos, field)
                },
    {
        if pos.y < self.config.sea_level {
            return voxel_in_column(self.config, pos.y, 0);
        }
        let key = key_of_column(pos.x, pos.z);
        let ceiling = match self.cache.get(&key) {
            Some(h) => *h,
            None => {
                let h = height(pos.x, pos.z);
                self.cache.insert(key, h);
                h
            },
        };
        proof {
            assert(self.column(pos.x, pos.z) == ceiling);
            assert forall|field: spec_fn(i32, i32) -> i64|
                old(self).agrees_with(field) && computes_field(*height, field) implies {
                &&& #[trigger] self.agrees_with(field)
                &&& ceiling == field(pos.x, pos.z)
            } by {
                if !old(self).has_column(pos.x, pos.z) {
                    assert(height.ensures((pos.x, pos.z), ceiling));
                }
                assert forall|x: i32, z: i32| #[trigger]
                    self.has_column(x, z) implies self.column(x, z) == field(x, z) by {
                    lemma_column_key_injective(x, z, pos.x, pos.z);
                    if x != pos.x || z != pos.z {
                        assert(old(self).has_column(x, z));
                    }
                }
            }
        }
        voxel_in_column(self.config, pos.y, ceiling)
    }

    /// The cached ceiling of column `(x, z)`, if it was computed.
    pub fn cached_height(&self, x: i32, z: i32) -> (r: Option<i64>)
        ensures
            r == (if self.has_column(x, z) {
                Some(self.column(x, z))
            } else {
                None::<i64>
            }),
    {
        let key = key_of_column(x, z);
        match self.cache.get(&key) {
            Some(h) => Some(*h),
            None => None,
        }
    }
}

} // verus!
