//! Camera facts shown in the interface, the scene controller's output, and the
//! per-plant random seed.
use vstd::prelude::*;

verus! {

pub struct CameraInfo {
    pub is_orbit: bool,
}

pub struct SceneOutput {
    pub line_segments: Vec<(u32, u32)>,
    pub debug_line_segments: Vec<(u32, u32)>,
    pub mesh_index_count: u32,
}

/// Multiplier that spreads plant indices over the seed space
pub const PLANT_SEED_STRIDE: u64 = 6364136223846793005;

/// The seed of the random draws made while building the plant at `index` of a scene
/// seeded with `scene_seed`: `scene_seed + index * PLANT_SEED_STRIDE`, modulo 2^64
pub fn plant_seed(scene_seed: u64, index: usize) -> (s: u64)
    ensures
        s == (scene_seed + (index as u64) * PLANT_SEED_STRIDE) % 0x1_0000_0000_0000_0000,
{
    let i = index as u64;
    let m = i.wrapping_mul(PLANT_SEED_STRIDE);
    let s = scene_seed.wrapping_add(m);
    assert(s == (scene_seed + (index as u64) * PLANT_SEED_STRIDE) % 0x1_0000_0000_0000_0000) by (nonlinear_arith)
        requires
            m == (i * PLANT_SEED_STRIDE) % 0x1_0000_0000_0000_0000,
            s == (scene_seed + m) % 0x1_0000_0000_0000_0000,
            i == index as u64,
    ;
    s
}

} // verus!
