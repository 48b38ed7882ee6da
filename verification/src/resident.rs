//! The GPU residency plan for a texture array: which byte range of the
//! arena goes to which layer and mip level, and with which row layout.
//!
//! The device and queue that execute the plan live outside; they create
//! one texture per kind at the planned extent and issue one write per
//! plan entry.

use vstd::prelude::*;
use crate::texture::{mip_dimension, spec_mip_dimension};
use crate::texture_map::TextureMap;

verus! {

/// One texture write: a byte range of the arena, its destination layer
/// and mip level, and the row layout of the block-compressed payload.
#[derive(Copy, Clone, PartialEq, Eq, Structural, Debug)]
pub struct MipUpload {
    pub layer: u32,
    pub level: u32,
    pub offset: usize,
    pub length: usize,
    /// The level's square dimension in pixels, floored at one block.
    pub dimension: u32,
    /// 16 bytes per 4-by-4 block: four bytes per pixel of width.
    pub bytes_per_row: u32,
    pub rows_per_image: u32,
}

/// The layer count a GPU texture array is created with: an array that
/// holds no layers yet still gets one, so its view stays valid.
pub fn texture_layer_count(layer_count: u32) -> (r: u32)
    ensures
        r == if layer_count == 0 {
            1u32
        } else {
            layer_count
        },
        r >= 1,
{
    if layer_count == 0 {
        1
    } else {
        layer_count
    }
}

/// Plans the writes that populate one texture array: one entry per
/// stored mip level, in layer-major order, each naming its arena range
/// and the row layout its level dictates.
#[verifier::loop_isolation(false)]
pub fn upload_plan(map: &TextureMap) -> (r: Vec<MipUpload>)
    requires
        map.wf(),
        map.names@.len() <= 0xffff_ffff,
        map.dimension <= 0x3fff_ffff,
    ensures
        r@.len() == map.mip_levels@.len(),
        forall|k: int|
            0 <= k < r@.len() ==> {
                let u = #[trigger] r@[k];
                &&& u.layer * map.mip_level_count + u.level == k
                &&& u.level < map.mip_level_count
                &&& u.offset == map.mip_levels@[k].0
                &&& u.length == map.mip_levels@[k].1
                &&& u.dimension == spec_mip_dimension(map.dimension, u.level)
                &&& u.bytes_per_row == 16 * (u.dimension / 4)
                &&& u.rows_per_image == u.dimension / 4
            },
{
    let layer_count = map.count();
    let mip_level_count = map.mip_level_count as usize;
    let mut plan: Vec<MipUpload> = Vec::new();
    let mut layer: usize = 0;
    while layer < layer_count
        invariant
            layer <= layer_count,
            plan@.len() == layer * mip_level_count,
            forall|k: int|
                0 <= k < plan@.len() ==> {
                    let u = #[trigger] plan@[k];
                    &&& u.layer * map.mip_level_count + u.level == k
                    &&& u.level < map.mip_level_count
                    &&& u.offset == map.mip_levels@[k].0
                    &&& u.length == map.mip_levels@[k].1
                    &&& u.dimension == spec_mip_dimension(map.dimension, u.level)
                    &&& u.bytes_per_row == 16 * (u.dimension / 4)
                    &&& u.rows_per_image == u.dimension / 4
                },
        decreases layer_count - layer,
    {
        let mut level: usize = 0;
        proof {
            assert(layer * mip_level_count + mip_level_count == (layer + 1) * mip_level_count)
                by (nonlinear_arith);
            assert((layer + 1) * mip_level_count <= layer_count * mip_level_count)
                by (nonlinear_arith)
                requires
                    layer + 1 <= layer_count && mip_level_count >= 0,
            ;
            assert(layer_count * mip_level_count == map.mip_levels@.len());
            assert(layer * mip_level_count + mip_level_count <= map.mip_levels.len());
        }
        while level < mip_level_count
            invariant
                level <= mip_level_count,
                layer < layer_count,
                plan@.len() == layer * mip_level_count + level,
                layer * mip_level_count + mip_level_count <= map.mip_levels.len(),
                forall|k: int|
                    0 <= k < plan@.len() ==> {
                        let u = #[trigger] plan@[k];
                        &&& u.layer * map.mip_level_count + u.level == k
                        &&& u.level < map.mip_level_count
                        &&& u.offset == map.mip_levels@[k].0
                        &&& u.length == map.mip_levels@[k].1
                        &&& u.dimension == spec_mip_dimension(map.dimension, u.level)
                        &&& u.bytes_per_row == 16 * (u.dimension / 4)
                        &&& u.rows_per_image == u.dimension / 4
                    },
            decreases mip_level_count - level,
        {
            let index = layer * mip_level_count + level;
            let (offset, length) = map.mip_levels[index];
            let dimension = mip_dimension(map.dimension, level as u32);
            proof {
                let d = map.dimension;
                let lv = level as u32;
                assert(d >> lv <= d) by (bit_vector);
            }
            plan.push(
                MipUpload {
                    layer: layer as u32,
                    level: level as u32,
                    offset,
                    length,
                    dimension,
                    bytes_per_row: 16 * (dimension / 4),
                    rows_per_image: dimension / 4,
                },
            );
            proof {
                assert((layer as u32) * map.mip_level_count + (level as u32) == index)
                    by (nonlinear_arith)
                    requires
                        layer * mip_level_count + level == index && mip_level_count
                            == map.mip_level_count && layer <= 0xffff_ffffusize && level
                            < mip_level_count,
                ;
            }
            level = level + 1;
        }
        layer = layer + 1;
    }
    plan
}

} // verus!
