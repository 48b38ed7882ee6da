//! Errors surfaced by the asset ingestion layer.

use vstd::prelude::*;

verus! {

/// Everything that can go wrong while loading assets. Loaders short-circuit
/// on the first error and return it; the store is left in a consistent,
/// partially populated state that callers discard.
#[derive(PartialEq, Eq, Debug)]
pub enum AssetError {
    /// The byte stream is not a well-formed block-compressed texture
    /// container, or a mip level payload does not have the byte length
    /// its header tuple dictates, or a referenced texture file is
    /// missing from the decoded input.
    InvalidTexture { name: String },
    /// The container parsed, but its `(format, width, height, mip levels)`
    /// tuple is not one of the recognized texture-array kinds.
    UnsupportedTextureFormat {
        name: String,
        /// The container's format code; zero when the container names none.
        format: u32,
        width: u32,
        height: u32,
        mip_level_count: u32,
    },
    /// The first cubemap face resolved to a kind that cubemaps do not allow.
    InvalidCubemapTexture { name: String },
    /// A later cubemap face resolved to a different kind than the first.
    NonMatchingCubemapTexture { name: String },
    /// A mip level index at or beyond the kind's mip level count.
    InvalidMipLevel { mip_level: u32 },
    /// A layer index at or beyond the number of stored layers.
    TextureLayerOutOfBounds { layer_index: u32 },
    /// A model primitive is missing one of its three required texture
    /// channels (base color, normal, metallic-roughness).
    MissingMaterialChannel { name: String },
    /// A model node names a child index outside the node list, or the node
    /// graph is not a forest.
    InvalidModelNode { node_index: usize },
    /// A primitive's index list points at or beyond its own vertex list.
    InvalidIndex { name: String },
    /// An arena has reached the limit of its identifier space; nothing
    /// more can be stored.
    StoreFull,
}

} // verus!
