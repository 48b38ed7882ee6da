//! The thirteen texture arrays and the single chokepoint that routes a
//! decoded texture into exactly one of them.

use vstd::prelude::*;
use crate::container::ContainerTexture;
use crate::error::AssetError;
use crate::texture::{
    classify, mip_dimension, spec_classify, spec_kind_dimension, spec_kind_mip_level_count,
    spec_kind_texture_format, spec_kind_tuple, spec_mip_byte_length, TextureArray, TextureFormat,
};
use crate::texture_map::{spec_map_add_result, TextureMap};

verus! {

/// The thirteen stores, one per kind.
pub struct TextureArrays {
    pub rg_bc5_unorm_512: TextureMap,
    pub rg_bc5_unorm_1024: TextureMap,
    pub rg_bc5_unorm_2048: TextureMap,
    pub rg_bc5_unorm_4096: TextureMap,
    pub rgb_bc7_unorm_512: TextureMap,
    pub rgb_bc7_unorm_1024: TextureMap,
    pub rgb_bc7_unorm_2048: TextureMap,
    pub rgb_bc7_unorm_4096: TextureMap,
    pub rgba_bc7_srgb_512: TextureMap,
    pub rgba_bc7_srgb_1024: TextureMap,
    pub rgba_bc7_srgb_2048: TextureMap,
    pub rgba_bc7_srgb_4096: TextureMap,
    pub no_mip_rgb_bc6h_sfloat_1024: TextureMap,
}

impl TextureArrays {
    /// The store of one kind.
    pub open spec fn spec_map_of(self, kind: TextureArray) -> TextureMap {
        match kind {
            TextureArray::RgBc5Unorm512 => self.rg_bc5_unorm_512,
            TextureArray::RgBc5Unorm1024 => self.rg_bc5_unorm_1024,
            TextureArray::RgBc5Unorm2048 => self.rg_bc5_unorm_2048,
            TextureArray::RgBc5Unorm4096 => self.rg_bc5_unorm_4096,
            TextureArray::RgbBc7Unorm512 => self.rgb_bc7_unorm_512,
            TextureArray::RgbBc7Unorm1024 => self.rgb_bc7_unorm_1024,
            TextureArray::RgbBc7Unorm2048 => self.rgb_bc7_unorm_2048,
            TextureArray::RgbBc7Unorm4096 => self.rgb_bc7_unorm_4096,
            TextureArray::RgbaBc7Srgb512 => self.rgba_bc7_srgb_512,
            TextureArray::RgbaBc7Srgb1024 => self.rgba_bc7_srgb_1024,
            TextureArray::RgbaBc7Srgb2048 => self.rgba_bc7_srgb_2048,
            TextureArray::RgbaBc7Srgb4096 => self.rgba_bc7_srgb_4096,
            TextureArray::NoMipRgbBc6hSFloat1024 => self.no_mip_rgb_bc6h_sfloat_1024,
        }
    }

    /// Each kind's store is well-formed and carries that kind's
    /// dimension, mip level count and format.
    pub open spec fn wf(self) -> bool {
        forall|kind: TextureArray|
            {
                &&& (#[trigger] self.spec_map_of(kind)).wf()
                &&& self.spec_map_of(kind).dimension == spec_kind_dimension(kind)
                &&& self.spec_map_of(kind).mip_level_count == spec_kind_mip_level_count(kind)
                &&& self.spec_map_of(kind).format == spec_kind_texture_format(kind)
            }
    }

    /// Room for `room` more layers in every store.
    pub open spec fn spec_has_capacity(self, room: int) -> bool {
        forall|kind: TextureArray|
            (#[trigger] self.spec_map_of(kind)).names@.len() + room <= 0xffff_ffff
    }

    /// Thirteen empty stores.
    pub fn new() -> (r: TextureArrays)
        ensures
            r.wf(),
            forall|kind: TextureArray| (#[trigger] r.spec_map_of(kind)).names@.len() == 0,
            forall|kind: TextureArray| (#[trigger] r.spec_map_of(kind)).data@.len() == 0,
            forall|kind: TextureArray| (#[trigger] r.spec_map_of(kind)).mip_levels@.len() == 0,
    {
        TextureArrays {
            rg_bc5_unorm_512: TextureMap::new(512, TextureFormat::Bc5RgUnorm, 10),
            rg_bc5_unorm_1024: TextureMap::new(1024, TextureFormat::Bc5RgUnorm, 11),
            rg_bc5_unorm_2048: TextureMap::new(2048, TextureFormat::Bc5RgUnorm, 12),
            rg_bc5_unorm_4096: TextureMap::new(4096, TextureFormat::Bc5RgUnorm, 13),
            rgb_bc7_unorm_512: TextureMap::new(512, TextureFormat::Bc7RgbaUnorm, 10),
            rgb_bc7_unorm_1024: TextureMap::new(1024, TextureFormat::Bc7RgbaUnorm, 11),
            rgb_bc7_unorm_2048: TextureMap::new(2048, TextureFormat::Bc7RgbaUnorm, 12),
            rgb_bc7_unorm_4096: TextureMap::new(4096, TextureFormat::Bc7RgbaUnorm, 13),
            rgba_bc7_srgb_512: TextureMap::new(512, TextureFormat::Bc7RgbaUnormSrgb, 10),
            rgba_bc7_srgb_1024: TextureMap::new(1024, TextureFormat::Bc7RgbaUnormSrgb, 11),
            rgba_bc7_srgb_2048: TextureMap::new(2048, TextureFormat::Bc7RgbaUnormSrgb, 12),
            rgba_bc7_srgb_4096: TextureMap::new(4096, TextureFormat::Bc7RgbaUnormSrgb, 13),
            no_mip_rgb_bc6h_sfloat_1024: TextureMap::new(1024, TextureFormat::Bc6hRgbFloat, 1),
        }
    }

    /// Whether every store has room for one more layer.
    pub fn has_room(&self) -> (r: bool)
        ensures
            r == self.spec_has_capacity(1),
    {
        self.has_room_for(1)
    }

    /// Whether every store has room for `room` more layers.
    pub fn has_room_for(&self, room: u32) -> (r: bool)
        ensures
            r == self.spec_has_capacity(room as int),
    {
        let cap: u64 = 0xffff_ffff;
        let budget = cap - room as u64;
        let r = self.rg_bc5_unorm_512.names.len() as u64 <= budget
            && self.rg_bc5_unorm_1024.names.len() as u64 <= budget
            && self.rg_bc5_unorm_2048.names.len() as u64 <= budget
            && self.rg_bc5_unorm_4096.names.len() as u64 <= budget
            && self.rgb_bc7_unorm_512.names.len() as u64 <= budget
            && self.rgb_bc7_unorm_1024.names.len() as u64 <= budget
            && self.rgb_bc7_unorm_2048.names.len() as u64 <= budget
            && self.rgb_bc7_unorm_4096.names.len() as u64 <= budget
            && self.rgba_bc7_srgb_512.names.len() as u64 <= budget
            && self.rgba_bc7_srgb_1024.names.len() as u64 <= budget
            && self.rgba_bc7_srgb_2048.names.len() as u64 <= budget
            && self.rgba_bc7_srgb_4096.names.len() as u64 <= budget
            && self.no_mip_rgb_bc6h_sfloat_1024.names.len() as u64 <= budget;
        proof {
            if r {
                assert forall|kind: TextureArray|
                    (#[trigger] self.spec_map_of(kind)).names@.len() + room <= 0xffff_ffff by {
                    match kind {
                        TextureArray::RgBc5Unorm512 => {},
                        TextureArray::RgBc5Unorm1024 => {},
                        TextureArray::RgBc5Unorm2048 => {},
                        TextureArray::RgBc5Unorm4096 => {},
                        TextureArray::RgbBc7Unorm512 => {},
                        TextureArray::RgbBc7Unorm1024 => {},
                        TextureArray::RgbBc7Unorm2048 => {},
                        TextureArray::RgbBc7Unorm4096 => {},
                        TextureArray::RgbaBc7Srgb512 => {},
                        TextureArray::RgbaBc7Srgb1024 => {},
                        TextureArray::RgbaBc7Srgb2048 => {},
                        TextureArray::RgbaBc7Srgb4096 => {},
                        TextureArray::NoMipRgbBc6hSFloat1024 => {},
                    }
                }
            } else {
                if self.rg_bc5_unorm_512.names.len() as u64 > budget {
                    assert(self.spec_map_of(TextureArray::RgBc5Unorm512).names@.len() + room
                        > 0xffff_ffff);
                } else if self.rg_bc5_unorm_1024.names.len() as u64 > budget {
                    assert(self.spec_map_of(TextureArray::RgBc5Unorm1024).names@.len() + room
                        > 0xffff_ffff);
                } else if self.rg_bc5_unorm_2048.names.len() as u64 > budget {
                    assert(self.spec_map_of(TextureArray::RgBc5Unorm2048).names@.len() + room
                        > 0xffff_ffff);
                } else if self.rg_bc5_unorm_4096.names.len() as u64 > budget {
                    assert(self.spec_map_of(TextureArray::RgBc5Unorm4096).names@.len() + room
                        > 0xffff_ffff);
                } else if self.rgb_bc7_unorm_512.names.len() as u64 > budget {
                    assert(self.spec_map_of(TextureArray::RgbBc7Unorm512).names@.len() + room
                        > 0xffff_ffff);
                } else if self.rgb_bc7_unorm_1024.names.len() as u64 > budget {
                    assert(self.spec_map_of(TextureArray::RgbBc7Unorm1024).names@.len() + room
                        > 0xffff_ffff);
                } else if self.rgb_bc7_unorm_2048.names.len() as u64 > budget {
                    assert(self.spec_map_of(TextureArray::RgbBc7Unorm2048).names@.len() + room
                        > 0xffff_ffff);
                } else if self.rgb_bc7_unorm_4096.names.len() as u64 > budget {
                    assert(self.spec_map_of(TextureArray::RgbBc7Unorm4096).names@.len() + room
                        > 0xffff_ffff);
                } else if self.rgba_bc7_srgb_512.names.len() as u64 > budget {
                    assert(self.spec_map_of(TextureArray::RgbaBc7Srgb512).names@.len() + room
                        > 0xffff_ffff);
                } else if self.rgba_bc7_srgb_1024.names.len() as u64 > budget {
                    assert(self.spec_map_of(TextureArray::RgbaBc7Srgb1024).names@.len() + room
                        > 0xffff_ffff);
                } else if self.rgba_bc7_srgb_2048.names.len() as u64 > budget {
                    assert(self.spec_map_of(TextureArray::RgbaBc7Srgb2048).names@.len() + room
                        > 0xffff_ffff);
                } else if self.rgba_bc7_srgb_4096.names.len() as u64 > budget {
                    assert(self.spec_map_of(TextureArray::RgbaBc7Srgb4096).names@.len() + room
                        > 0xffff_ffff);
                } else {
                    assert(self.spec_map_of(TextureArray::NoMipRgbBc6hSFloat1024).names@.len()
                        + room > 0xffff_ffff);
                }
            }
        }
        r
    }

    /// Classifies a decoded texture by its header tuple and appends its
    /// mip chain to the matching store. A texture routed to kind `K`
    /// always carries exactly `K`'s defining header tuple; a tuple not
    /// in the recognized set is rejected, as is a mip chain whose level
    /// count or level byte lengths do not match the tuple.
    #[verifier::loop_isolation(false)]
    pub fn add(&mut self, name: String, texture: ContainerTexture) -> (res: Result<
        (TextureArray, u32),
        AssetError,
    >)
        requires
            old(self).wf(),
            old(self).spec_has_capacity(1),
        ensures
            final(self).wf(),
            spec_classify(texture.format, texture.width, texture.height, texture.level_count)
                is None ==> *final(self) == *old(self) && res == Err::<
                (TextureArray, u32),
                AssetError,
            >(
                AssetError::UnsupportedTextureFormat {
                    name,
                    format: texture.format,
                    width: texture.width,
                    height: texture.height,
                    mip_level_count: texture.level_count,
                },
            ),
            forall|kind: TextureArray|
                spec_classify(texture.format, texture.width, texture.height, texture.level_count)
                    == Some(kind) ==> {
                if texture.levels@.len() == spec_kind_mip_level_count(kind) && (forall|m: int|
                    0 <= m < texture.levels@.len() ==> (#[trigger] texture.levels@[m])@.len()
                        == spec_mip_byte_length(spec_kind_dimension(kind), m as u32)) {
                    &&& res matches Ok((k, id)) && k == kind && spec_map_add_result(
                        old(self).spec_map_of(kind),
                        final(self).spec_map_of(kind),
                        name@,
                        texture.levels@.map_values(|level: Vec<u8>| level@),
                        id,
                    )
                    &&& forall|other: TextureArray|
                        other != kind ==> final(self).spec_map_of(other) == old(self).spec_map_of(
                            other,
                        )
                } else {
                    *final(self) == *old(self) && res == Err::<(TextureArray, u32), AssetError>(
                        AssetError::InvalidTexture { name },
                    )
                }
            },
            res matches Ok((k, id)) ==> (
            texture.format,
            texture.width,
            texture.height,
            texture.level_count,
            ) == spec_kind_tuple(k),
    {
        let ContainerTexture { format, width, height, level_count, levels } = texture;
        let kind = match classify(format, width, height, level_count) {
            None => {
                return Err(
                    AssetError::UnsupportedTextureFormat {
                        name,
                        format,
                        width,
                        height,
                        mip_level_count: level_count,
                    },
                );
            },
            Some(kind) => kind,
        };
        proof {
            crate::texture::lemma_classification_exact(format, width, height, level_count, kind);
        }
        let expected_levels = kind.mip_level_count();
        if levels.len() != expected_levels as usize {
            return Err(AssetError::InvalidTexture { name });
        }
        let mut m: usize = 0;
        while m < levels.len()
            invariant
                m <= levels@.len(),
                width == spec_kind_dimension(kind),
                forall|j: int|
                    0 <= j < m ==> (#[trigger] levels@[j])@.len() == spec_mip_byte_length(
                        spec_kind_dimension(kind),
                        j as u32,
                    ),
            decreases levels@.len() - m,
        {
            let dim = mip_dimension(width, m as u32);
            proof {
                assert((dim as int) * (dim as int) < 0x1_0000_0000_0000_0000) by (nonlinear_arith)
                    requires
                        dim <= 0xffff_ffffu32,
                ;
            }
            let expected_bytes = (dim as u64) * (dim as u64);
            if levels[m].len() as u64 != expected_bytes {
                return Err(AssetError::InvalidTexture { name });
            }
            m = m + 1;
        }
        proof {
            assert(old(self).spec_map_of(kind).wf());
            assert(old(self).spec_map_of(kind).dimension == spec_kind_dimension(kind));
            assert(old(self).spec_map_of(kind).mip_level_count == spec_kind_mip_level_count(kind));
            assert(old(self).spec_map_of(kind).names@.len() < 0xffff_ffff);
        }
        let id = match kind {
            TextureArray::RgBc5Unorm512 => self.rg_bc5_unorm_512.add(name, levels),
            TextureArray::RgBc5Unorm1024 => self.rg_bc5_unorm_1024.add(name, levels),
            TextureArray::RgBc5Unorm2048 => self.rg_bc5_unorm_2048.add(name, levels),
            TextureArray::RgBc5Unorm4096 => self.rg_bc5_unorm_4096.add(name, levels),
            TextureArray::RgbBc7Unorm512 => self.rgb_bc7_unorm_512.add(name, levels),
            TextureArray::RgbBc7Unorm1024 => self.rgb_bc7_unorm_1024.add(name, levels),
            TextureArray::RgbBc7Unorm2048 => self.rgb_bc7_unorm_2048.add(name, levels),
            TextureArray::RgbBc7Unorm4096 => self.rgb_bc7_unorm_4096.add(name, levels),
            TextureArray::RgbaBc7Srgb512 => self.rgba_bc7_srgb_512.add(name, levels),
            TextureArray::RgbaBc7Srgb1024 => self.rgba_bc7_srgb_1024.add(name, levels),
            TextureArray::RgbaBc7Srgb2048 => self.rgba_bc7_srgb_2048.add(name, levels),
            TextureArray::RgbaBc7Srgb4096 => self.rgba_bc7_srgb_4096.add(name, levels),
            TextureArray::NoMipRgbBc6hSFloat1024 => self.no_mip_rgb_bc6h_sfloat_1024.add(
                name,
                levels,
            ),
        };
        proof {
            assert forall|other: TextureArray| other != kind implies self.spec_map_of(other)
                == old(self).spec_map_of(other) by {}
            assert forall|k2: TextureArray|
                {
                    &&& (#[trigger] self.spec_map_of(k2)).wf()
                    &&& self.spec_map_of(k2).dimension == spec_kind_dimension(k2)
                    &&& self.spec_map_of(k2).mip_level_count == spec_kind_mip_level_count(k2)
                    &&& self.spec_map_of(k2).format == spec_kind_texture_format(k2)
                } by {
                if k2 != kind {
                    assert(self.spec_map_of(k2) == old(self).spec_map_of(k2));
                }
            }
        }
        Ok((kind, id))
    }
}

} // verus!
