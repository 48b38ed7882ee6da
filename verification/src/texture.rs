//! The closed set of texture-array kinds and the classifier that routes a
//! texture header to one of them.
//!
//! Bindless sampling is expressed as a small, statically sized set of 2D
//! texture arrays; a texture's `(format, width, height, mip level count)`
//! header tuple decides the one slot it may live in.

use vstd::prelude::*;

verus! {

/// Container format code for two-channel BC5 unsigned-normalized blocks.
pub const FORMAT_BC5_UNORM: u32 = 141;

/// Container format code for HDR three-channel BC6H signed-float blocks.
pub const FORMAT_BC6H_SFLOAT: u32 = 144;

/// Container format code for BC7 unsigned-normalized blocks.
pub const FORMAT_BC7_UNORM: u32 = 145;

/// Container format code for BC7 sRGB blocks.
pub const FORMAT_BC7_SRGB: u32 = 146;

/// One of the thirteen texture arrays the renderer binds. Each kind pins
/// the block-compressed format, the square dimension and the exact mip
/// level count of every layer stored in it.
#[derive(Copy, Clone, PartialEq, Eq, Structural, Hash, Debug)]
pub enum TextureArray {
    RgBc5Unorm512,
    RgBc5Unorm1024,
    RgBc5Unorm2048,
    RgBc5Unorm4096,
    RgbBc7Unorm512,
    RgbBc7Unorm1024,
    RgbBc7Unorm2048,
    RgbBc7Unorm4096,
    RgbaBc7Srgb512,
    RgbaBc7Srgb1024,
    RgbaBc7Srgb2048,
    RgbaBc7Srgb4096,
    NoMipRgbBc6hSFloat1024,
}

/// The binding slot of each kind, in declaration order.
pub open spec fn spec_kind_id(kind: TextureArray) -> u32 {
    match kind {
        TextureArray::RgBc5Unorm512 => 0,
        TextureArray::RgBc5Unorm1024 => 1,
        TextureArray::RgBc5Unorm2048 => 2,
        TextureArray::RgBc5Unorm4096 => 3,
        TextureArray::RgbBc7Unorm512 => 4,
        TextureArray::RgbBc7Unorm1024 => 5,
        TextureArray::RgbBc7Unorm2048 => 6,
        TextureArray::RgbBc7Unorm4096 => 7,
        TextureArray::RgbaBc7Srgb512 => 8,
        TextureArray::RgbaBc7Srgb1024 => 9,
        TextureArray::RgbaBc7Srgb2048 => 10,
        TextureArray::RgbaBc7Srgb4096 => 11,
        TextureArray::NoMipRgbBc6hSFloat1024 => 12,
    }
}

/// The container format code of each kind.
pub open spec fn spec_kind_format(kind: TextureArray) -> u32 {
    match kind {
        TextureArray::RgBc5Unorm512 => FORMAT_BC5_UNORM,
        TextureArray::RgBc5Unorm1024 => FORMAT_BC5_UNORM,
        TextureArray::RgBc5Unorm2048 => FORMAT_BC5_UNORM,
        TextureArray::RgBc5Unorm4096 => FORMAT_BC5_UNORM,
        TextureArray::RgbBc7Unorm512 => FORMAT_BC7_UNORM,
        TextureArray::RgbBc7Unorm1024 => FORMAT_BC7_UNORM,
        TextureArray::RgbBc7Unorm2048 => FORMAT_BC7_UNORM,
        TextureArray::RgbBc7Unorm4096 => FORMAT_BC7_UNORM,
        TextureArray::RgbaBc7Srgb512 => FORMAT_BC7_SRGB,
        TextureArray::RgbaBc7Srgb1024 => FORMAT_BC7_SRGB,
        TextureArray::RgbaBc7Srgb2048 => FORMAT_BC7_SRGB,
        TextureArray::RgbaBc7Srgb4096 => FORMAT_BC7_SRGB,
        TextureArray::NoMipRgbBc6hSFloat1024 => FORMAT_BC6H_SFLOAT,
    }
}

/// The square dimension of each kind.
pub open spec fn spec_kind_dimension(kind: TextureArray) -> u32 {
    match kind {
        TextureArray::RgBc5Unorm512 => 512,
        TextureArray::RgBc5Unorm1024 => 1024,
        TextureArray::RgBc5Unorm2048 => 2048,
        TextureArray::RgBc5Unorm4096 => 4096,
        TextureArray::RgbBc7Unorm512 => 512,
        TextureArray::RgbBc7Unorm1024 => 1024,
        TextureArray::RgbBc7Unorm2048 => 2048,
        TextureArray::RgbBc7Unorm4096 => 4096,
        TextureArray::RgbaBc7Srgb512 => 512,
        TextureArray::RgbaBc7Srgb1024 => 1024,
        TextureArray::RgbaBc7Srgb2048 => 2048,
        TextureArray::RgbaBc7Srgb4096 => 4096,
        TextureArray::NoMipRgbBc6hSFloat1024 => 1024,
    }
}

/// The mip level count of each kind: the full chain down to the 4-by-4
/// block floor for the regular kinds, a single level for the HDR kind.
pub open spec fn spec_kind_mip_level_count(kind: TextureArray) -> u32 {
    match kind {
        TextureArray::RgBc5Unorm512 => 10,
        TextureArray::RgBc5Unorm1024 => 11,
        TextureArray::RgBc5Unorm2048 => 12,
        TextureArray::RgBc5Unorm4096 => 13,
        TextureArray::RgbBc7Unorm512 => 10,
        TextureArray::RgbBc7Unorm1024 => 11,
        TextureArray::RgbBc7Unorm2048 => 12,
        TextureArray::RgbBc7Unorm4096 => 13,
        TextureArray::RgbaBc7Srgb512 => 10,
        TextureArray::RgbaBc7Srgb1024 => 11,
        TextureArray::RgbaBc7Srgb2048 => 12,
        TextureArray::RgbaBc7Srgb4096 => 13,
        TextureArray::NoMipRgbBc6hSFloat1024 => 1,
    }
}

/// The header tuple that defines a kind: format code, width, height and
/// mip level count. A texture is stored under a kind exactly when its
/// header equals this tuple.
pub open spec fn spec_kind_tuple(kind: TextureArray) -> (u32, u32, u32, u32) {
    (
        spec_kind_format(kind),
        spec_kind_dimension(kind),
        spec_kind_dimension(kind),
        spec_kind_mip_level_count(kind),
    )
}

/// The classification relation: the kind whose defining tuple equals the
/// header tuple, if any.
pub open spec fn spec_classify(format: u32, width: u32, height: u32, mip_level_count: u32) -> Option<
    TextureArray,
> {
    if format == FORMAT_BC5_UNORM && width == 512 && height == 512 && mip_level_count == 10 {
        Some(TextureArray::RgBc5Unorm512)
    } else if format == FORMAT_BC5_UNORM && width == 1024 && height == 1024 && mip_level_count
        == 11 {
        Some(TextureArray::RgBc5Unorm1024)
    } else if format == FORMAT_BC5_UNORM && width == 2048 && height == 2048 && mip_level_count
        == 12 {
        Some(TextureArray::RgBc5Unorm2048)
    } else if format == FORMAT_BC5_UNORM && width == 4096 && height == 4096 && mip_level_count
        == 13 {
        Some(TextureArray::RgBc5Unorm4096)
    } else if format == FORMAT_BC7_UNORM && width == 512 && height == 512 && mip_level_count
        == 10 {
        Some(TextureArray::RgbBc7Unorm512)
    } else if format == FORMAT_BC7_UNORM && width == 1024 && height == 1024 && mip_level_count
        == 11 {
        Some(TextureArray::RgbBc7Unorm1024)
    } else if format == FORMAT_BC7_UNORM && width == 2048 && height == 2048 && mip_level_count
        == 12 {
        Some(TextureArray::RgbBc7Unorm2048)
    } else if format == FORMAT_BC7_UNORM && width == 4096 && height == 4096 && mip_level_count
        == 13 {
        Some(TextureArray::RgbBc7Unorm4096)
    } else if format == FORMAT_BC7_SRGB && width == 512 && height == 512 && mip_level_count
        == 10 {
        Some(TextureArray::RgbaBc7Srgb512)
    } else if format == FORMAT_BC7_SRGB && width == 1024 && height == 1024 && mip_level_count
        == 11 {
        Some(TextureArray::RgbaBc7Srgb1024)
    } else if format == FORMAT_BC7_SRGB && width == 2048 && height == 2048 && mip_level_count
        == 12 {
        Some(TextureArray::RgbaBc7Srgb2048)
    } else if format == FORMAT_BC7_SRGB && width == 4096 && height == 4096 && mip_level_count
        == 13 {
        Some(TextureArray::RgbaBc7Srgb4096)
    } else if format == FORMAT_BC6H_SFLOAT && width == 1024 && height == 1024 && mip_level_count
        == 1 {
        Some(TextureArray::NoMipRgbBc6hSFloat1024)
    } else {
        None
    }
}

impl TextureArray {
    /// The binding slot this kind occupies in the bindless bind group.
    pub fn id(&self) -> (r: u32)
        ensures
            r == spec_kind_id(*self),
    {
        match self {
            TextureArray::RgBc5Unorm512 => 0,
            TextureArray::RgBc5Unorm1024 => 1,
            TextureArray::RgBc5Unorm2048 => 2,
            TextureArray::RgBc5Unorm4096 => 3,
            TextureArray::RgbBc7Unorm512 => 4,
            TextureArray::RgbBc7Unorm1024 => 5,
            TextureArray::RgbBc7Unorm2048 => 6,
            TextureArray::RgbBc7Unorm4096 => 7,
            TextureArray::RgbaBc7Srgb512 => 8,
            TextureArray::RgbaBc7Srgb1024 => 9,
            TextureArray::RgbaBc7Srgb2048 => 10,
            TextureArray::RgbaBc7Srgb4096 => 11,
            TextureArray::NoMipRgbBc6hSFloat1024 => 12,
        }
    }

    /// The width and height every layer of this kind has.
    pub fn size(&self) -> (r: (usize, usize))
        ensures
            r.0 == spec_kind_dimension(*self),
            r.1 == spec_kind_dimension(*self),
    {
        match self {
            TextureArray::RgBc5Unorm512 => (512, 512),
            TextureArray::RgBc5Unorm1024 => (1024, 1024),
            TextureArray::RgBc5Unorm2048 => (2048, 2048),
            TextureArray::RgBc5Unorm4096 => (4096, 4096),
            TextureArray::RgbBc7Unorm512 => (512, 512),
            TextureArray::RgbBc7Unorm1024 => (1024, 1024),
            TextureArray::RgbBc7Unorm2048 => (2048, 2048),
            TextureArray::RgbBc7Unorm4096 => (4096, 4096),
            TextureArray::RgbaBc7Srgb512 => (512, 512),
            TextureArray::RgbaBc7Srgb1024 => (1024, 1024),
            TextureArray::RgbaBc7Srgb2048 => (2048, 2048),
            TextureArray::RgbaBc7Srgb4096 => (4096, 4096),
            TextureArray::NoMipRgbBc6hSFloat1024 => (1024, 1024),
        }
    }

    /// The mip level count every layer of this kind has.
    pub fn mip_level_count(&self) -> (r: u32)
        ensures
            r == spec_kind_mip_level_count(*self),
    {
        match self {
            TextureArray::RgBc5Unorm512 => 10,
            TextureArray::RgBc5Unorm1024 => 11,
            TextureArray::RgBc5Unorm2048 => 12,
            TextureArray::RgBc5Unorm4096 => 13,
            TextureArray::RgbBc7Unorm512 => 10,
            TextureArray::RgbBc7Unorm1024 => 11,
            TextureArray::RgbBc7Unorm2048 => 12,
            TextureArray::RgbBc7Unorm4096 => 13,
            TextureArray::RgbaBc7Srgb512 => 10,
            TextureArray::RgbaBc7Srgb1024 => 11,
            TextureArray::RgbaBc7Srgb2048 => 12,
            TextureArray::RgbaBc7Srgb4096 => 13,
            TextureArray::NoMipRgbBc6hSFloat1024 => 1,
        }
    }
}

/// Routes a header tuple to its kind, or to nothing when the tuple is not
/// in the recognized set.
pub fn classify(format: u32, width: u32, height: u32, mip_level_count: u32) -> (r: Option<
    TextureArray,
>)
    ensures
        r == spec_classify(format, width, height, mip_level_count),
{
    match (format, width, height, mip_level_count) {
        (FORMAT_BC5_UNORM, 512, 512, 10) => Some(TextureArray::RgBc5Unorm512),
        (FORMAT_BC5_UNORM, 1024, 1024, 11) => Some(TextureArray::RgBc5Unorm1024),
        (FORMAT_BC5_UNORM, 2048, 2048, 12) => Some(TextureArray::RgBc5Unorm2048),
        (FORMAT_BC5_UNORM, 4096, 4096, 13) => Some(TextureArray::RgBc5Unorm4096),
        (FORMAT_BC7_UNORM, 512, 512, 10) => Some(TextureArray::RgbBc7Unorm512),
        (FORMAT_BC7_UNORM, 1024, 1024, 11) => Some(TextureArray::RgbBc7Unorm1024),
        (FORMAT_BC7_UNORM, 2048, 2048, 12) => Some(TextureArray::RgbBc7Unorm2048),
        (FORMAT_BC7_UNORM, 4096, 4096, 13) => Some(TextureArray::RgbBc7Unorm4096),
        (FORMAT_BC7_SRGB, 512, 512, 10) => Some(TextureArray::RgbaBc7Srgb512),
        (FORMAT_BC7_SRGB, 1024, 1024, 11) => Some(TextureArray::RgbaBc7Srgb1024),
        (FORMAT_BC7_SRGB, 2048, 2048, 12) => Some(TextureArray::RgbaBc7Srgb2048),
        (FORMAT_BC7_SRGB, 4096, 4096, 13) => Some(TextureArray::RgbaBc7Srgb4096),
        (FORMAT_BC6H_SFLOAT, 1024, 1024, 1) => Some(TextureArray::NoMipRgbBc6hSFloat1024),
        _ => None,
    }
}

/// A texture classified under kind `K` always carries `K`'s defining header
/// tuple, and every kind recognizes exactly its own tuple.
pub proof fn lemma_classification_exact(
    format: u32,
    width: u32,
    height: u32,
    mip_level_count: u32,
    kind: TextureArray,
)
    ensures
        spec_classify(format, width, height, mip_level_count) == Some(kind) <==> (
        format,
        width,
        height,
        mip_level_count,
        ) == spec_kind_tuple(kind),
{
}

/// The dimension of a block-compressed mip level: halved per level, but
/// never below one 4-by-4 block.
pub open spec fn spec_mip_dimension(dimension: u32, level: u32) -> u32 {
    let shifted = dimension >> level;
    if shifted < 4 {
        4
    } else {
        shifted
    }
}

/// The dimension of mip `level` of a square texture of size `dimension`:
/// `max(4, dimension >> level)`. The 4-pixel floor is the BC block size,
/// so the smallest mip is 4-by-4 whatever the texture's size.
pub fn mip_dimension(dimension: u32, level: u32) -> (r: u32)
    ensures
        r == spec_mip_dimension(dimension, level),
        r >= 4,
{
    let shifted = if level >= 32 {
        0u32
    } else {
        dimension >> level
    };
    proof {
        if level >= 32 {
            assert(dimension >> level == 0u32) by (bit_vector)
                requires
                    level >= 32,
            ;
        }
    }
    if shifted < 4 {
        4
    } else {
        shifted
    }
}

/// The byte length of one mip level under BC compression: the level is a
/// grid of 4-by-4 blocks at 16 bytes per block, so a level of dimension
/// `d` is `(d / 4) * (d / 4) * 16 == d * d` bytes.
pub open spec fn spec_mip_byte_length(dimension: u32, level: u32) -> int {
    spec_mip_dimension(dimension, level) * spec_mip_dimension(dimension, level)
}

/// The byte length of the first `level` mip levels of one layer, laid out
/// back to back in level-major order.
pub open spec fn spec_mip_prefix_bytes(dimension: u32, level: int) -> int
    decreases level,
{
    if level <= 0 {
        0
    } else {
        spec_mip_prefix_bytes(dimension, level - 1) + spec_mip_byte_length(
            dimension,
            (level - 1) as u32,
        )
    }
}

/// Each mip level has a positive byte length, so the prefix lengths grow
/// with the level.
pub proof fn lemma_mip_prefix_monotonic(dimension: u32, a: int, b: int)
    requires
        0 <= a <= b,
    ensures
        spec_mip_prefix_bytes(dimension, a) <= spec_mip_prefix_bytes(dimension, b),
    decreases b,
{
    if a < b {
        lemma_mip_prefix_monotonic(dimension, a, b - 1);
        assert(spec_mip_byte_length(dimension, (b - 1) as u32) >= 0);
    }
}

/// The GPU texture format a kind's array is created with.
#[derive(Copy, Clone, PartialEq, Eq, Structural, Debug)]
pub enum TextureFormat {
    Bc5RgUnorm,
    Bc7RgbaUnorm,
    Bc7RgbaUnormSrgb,
    Bc6hRgbFloat,
}

/// The GPU texture format of each kind.
pub open spec fn spec_kind_texture_format(kind: TextureArray) -> TextureFormat {
    if spec_kind_format(kind) == FORMAT_BC5_UNORM {
        TextureFormat::Bc5RgUnorm
    } else if spec_kind_format(kind) == FORMAT_BC7_UNORM {
        TextureFormat::Bc7RgbaUnorm
    } else if spec_kind_format(kind) == FORMAT_BC7_SRGB {
        TextureFormat::Bc7RgbaUnormSrgb
    } else {
        TextureFormat::Bc6hRgbFloat
    }
}

} // verus!
