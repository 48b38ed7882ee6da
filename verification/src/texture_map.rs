//! One texture array's backing store: a byte arena holding all mip levels
//! of all layers back to back, in layer-major order, plus the per-level
//! `(offset, length)` table and the name-to-layer deduplication list.

use vstd::prelude::*;
use crate::error::AssetError;
use crate::names::{find_name, spec_contains_name, spec_name_index, spec_names_distinct};
use crate::texture::{spec_mip_byte_length, spec_mip_prefix_bytes, TextureFormat};
use vstd::slice::slice_subrange;

verus! {

/// The store behind one texture-array kind. Layer `l`'s mip level `m`
/// occupies `mip_levels[l * mip_level_count + m]`, a byte range of `data`.
pub struct TextureMap {
    /// Layer names, in insertion order; a layer's index is its id.
    pub names: Vec<String>,
    /// One `(offset, length)` per stored mip level, layer-major.
    pub mip_levels: Vec<(usize, usize)>,
    /// The square dimension of level 0 of every layer.
    pub dimension: u32,
    /// The mip level count of every layer.
    pub mip_level_count: u32,
    /// All level payloads, back to back.
    pub data: Vec<u8>,
    /// The GPU format the array is created with.
    pub format: TextureFormat,
}

/// Appends all of `src` onto `dst`.
fn append_bytes(dst: &mut Vec<u8>, src: &Vec<u8>)
    ensures
        final(dst)@ == old(dst)@ + src@,
{
    let mut k: usize = 0;
    while k < src.len()
        invariant
            k <= src@.len(),
            dst@ == old(dst)@ + src@.subrange(0, k as int),
        decreases src@.len() - k,
    {
        dst.push(src[k]);
        proof {
            assert(old(dst)@ + src@.subrange(0, k as int) + seq![src@[k as int]] =~= old(dst)@
                + src@.subrange(0, k + 1 as int));
        }
        k = k + 1;
    }
    proof {
        assert(src@.subrange(0, src@.len() as int) =~= src@);
    }
}

/// The layer identifier that offering a layer under `name` yields: the
/// existing layer when the name is already present, the next fresh index
/// otherwise.
pub open spec fn spec_map_add_id(pre: TextureMap, name: Seq<char>) -> int {
    if spec_contains_name(pre.names@, name) {
        spec_name_index(pre.names@, name)
    } else {
        pre.names@.len() as int
    }
}

/// How a store looks after one layer was offered to it under `name`: if
/// the name was already present, `r` is its layer and nothing changed;
/// otherwise `r` is the new layer's index, the name list grew by `name`,
/// and the table and arena grew by exactly the offered mip chain, level
/// `m` of the new layer sitting at its dictated offset and reading back
/// as `levels[m]`.
pub open spec fn spec_map_add_result(
    pre: TextureMap,
    post: TextureMap,
    name: Seq<char>,
    levels: Seq<Seq<u8>>,
    r: u32,
) -> bool {
    &&& post.wf()
    &&& post.dimension == pre.dimension
    &&& post.format == pre.format
    &&& post.mip_level_count == pre.mip_level_count
    &&& spec_contains_name(pre.names@, name) ==> r == spec_name_index(pre.names@, name) && post
        == pre
    &&& !spec_contains_name(pre.names@, name) ==> {
        &&& r == pre.names@.len()
        &&& post.names@.len() == pre.names@.len() + 1
        &&& forall|j: int| 0 <= j < pre.names@.len() ==> post.names@[j] == pre.names@[j]
        &&& post.names@[pre.names@.len() as int]@ == name
        &&& post.mip_levels@.len() == pre.mip_levels@.len() + pre.mip_level_count
        &&& forall|k: int|
            0 <= k < pre.mip_levels@.len() ==> post.mip_levels@[k] == pre.mip_levels@[k]
        &&& forall|m: int|
            0 <= m < levels.len() ==> (#[trigger] post.mip_levels@[pre.mip_levels@.len() + m]).0
                == pre.data@.len() + spec_mip_prefix_bytes(pre.dimension, m)
                && post.mip_levels@[pre.mip_levels@.len() + m].1 == levels[m].len()
        &&& post.data@.len() == pre.data@.len() + spec_mip_prefix_bytes(
            pre.dimension,
            pre.mip_level_count as int,
        )
        &&& forall|m: int|
            0 <= m < levels.len() ==> post.data@.subrange(
                (#[trigger] post.mip_levels@[pre.mip_levels@.len() + m]).0 as int,
                post.mip_levels@[pre.mip_levels@.len() + m].0 + post.mip_levels@[pre.mip_levels@.len()
                    + m].1,
            ) == levels[m]
        &&& post.data@.subrange(0, pre.data@.len() as int) == pre.data@
    }
}

impl TextureMap {
    /// Structural soundness of the store: one table entry per level of
    /// per layer, distinct names, every entry inside the arena, and every
    /// entry exactly the byte length its level dictates.
    pub open spec fn wf(self) -> bool {
        &&& 1 <= self.mip_level_count
        &&& self.mip_levels@.len() == self.names@.len() * self.mip_level_count
        &&& spec_names_distinct(self.names@)
        &&& forall|k: int|
            0 <= k < self.mip_levels@.len() ==> (#[trigger] self.mip_levels@[k]).0
                + self.mip_levels@[k].1 <= self.data@.len()
        &&& forall|k: int|
            0 <= k < self.mip_levels@.len() ==> (#[trigger] self.mip_levels@[k]).1
                == spec_mip_byte_length(
                self.dimension,
                (k % (self.mip_level_count as int)) as u32,
            )
    }

    /// An empty store for layers of the given dimension, format and mip
    /// level count.
    pub fn new(dimension: u32, format: TextureFormat, mip_level_count: u32) -> (r: TextureMap)
        requires
            1 <= mip_level_count,
        ensures
            r.wf(),
            r.dimension == dimension,
            r.format == format,
            r.mip_level_count == mip_level_count,
            r.names@.len() == 0,
            r.mip_levels@.len() == 0,
            r.data@.len() == 0,
    {
        TextureMap {
            names: Vec::new(),
            mip_levels: Vec::new(),
            dimension,
            mip_level_count,
            data: Vec::new(),
            format,
        }
    }

    /// The number of stored layers.
    pub fn count(&self) -> (r: usize)
        requires
            self.wf(),
        ensures
            r == self.names@.len(),
    {
        let r = self.mip_levels.len() / (self.mip_level_count as usize);
        proof {
            assert((self.names@.len() * self.mip_level_count) as int / (self.mip_level_count as int)
                == self.names@.len()) by (nonlinear_arith)
                requires
                    1 <= self.mip_level_count,
            ;
        }
        r
    }

    /// Appends one layer's mip chain under `name`, or returns the layer
    /// already stored under that name, leaving the store unchanged.
    #[verifier::loop_isolation(false)]
    pub fn add(&mut self, name: String, levels: Vec<Vec<u8>>) -> (r: u32)
        requires
            old(self).wf(),
            old(self).names@.len() < 0xffff_ffff,
            levels@.len() == old(self).mip_level_count,
            forall|m: int|
                0 <= m < levels@.len() ==> (#[trigger] levels@[m])@.len() == spec_mip_byte_length(
                    old(self).dimension,
                    m as u32,
                ),
        ensures
            spec_map_add_result(
                *old(self),
                *final(self),
                name@,
                levels@.map_values(|level: Vec<u8>| level@),
                r,
            ),
    {
        if let Some(existing) = find_name(&self.names, &name) {
            proof {
                crate::names::lemma_name_index_unique(self.names@, name@, existing as int);
            }
            return existing as u32;
        }
        let texture_index = self.names.len() as u32;
        let ghost old_table_len = self.mip_levels@.len();
        let ghost old_data_len = self.data@.len();
        let mut m: usize = 0;
        while m < levels.len()
            invariant
                old(self).wf(),
                m <= levels@.len(),
                levels@.len() == old(self).mip_level_count,
                forall|i: int|
                    0 <= i < levels@.len() ==> (#[trigger] levels@[i])@.len()
                        == spec_mip_byte_length(old(self).dimension, i as u32),
                self.names == old(self).names,
                self.dimension == old(self).dimension,
                self.format == old(self).format,
                self.mip_level_count == old(self).mip_level_count,
                self.mip_levels@.len() == old_table_len + m,
                self.data@.len() == old_data_len + spec_mip_prefix_bytes(
                    old(self).dimension,
                    m as int,
                ),
                forall|k: int|
                    0 <= k < old_table_len ==> self.mip_levels@[k] == old(self).mip_levels@[k],
                forall|j: int|
                    0 <= j < m ==> (#[trigger] self.mip_levels@[old_table_len + j]).0
                        == old_data_len + spec_mip_prefix_bytes(old(self).dimension, j)
                        && self.mip_levels@[old_table_len + j].1 == levels@[j]@.len(),
                self.data@.subrange(0, old_data_len as int) == old(self).data@,
                forall|j: int|
                    0 <= j < m ==> self.data@.subrange(
                        (#[trigger] self.mip_levels@[old_table_len + j]).0 as int,
                        self.mip_levels@[old_table_len + j].0 + self.mip_levels@[old_table_len
                            + j].1,
                    ) == levels@[j]@,
            decreases levels@.len() - m,
        {
            let offset = self.data.len();
            let ghost data_before = self.data@;
            append_bytes(&mut self.data, &levels[m]);
            self.mip_levels.push((offset, levels[m].len()));
            proof {
                crate::texture::lemma_mip_prefix_monotonic(old(self).dimension, 0, m as int);
                assert(self.data@.subrange(0, old_data_len as int) =~= old(self).data@);
                assert forall|j: int| 0 <= j < m + 1 implies self.data@.subrange(
                    (#[trigger] self.mip_levels@[old_table_len + j]).0 as int,
                    self.mip_levels@[old_table_len + j].0 + self.mip_levels@[old_table_len + j].1,
                ) == levels@[j]@ by {
                    let off_j = self.mip_levels@[old_table_len + j].0 as int;
                    let len_j = self.mip_levels@[old_table_len + j].1 as int;
                    if j < m {
                        lemma_mip_prefix_step(old(self).dimension, j);
                        crate::texture::lemma_mip_prefix_monotonic(
                            old(self).dimension,
                            j + 1,
                            m as int,
                        );
                        assert(off_j + len_j <= data_before.len());
                        assert(self.data@.subrange(off_j, off_j + len_j) =~= data_before.subrange(
                            off_j,
                            off_j + len_j,
                        ));
                    } else {
                        assert(self.data@.subrange(off_j, off_j + len_j) =~= levels@[j]@);
                    }
                }
            }
            m = m + 1;
        }
        self.names.push(name);
        proof {
            let ghost n = old(self).names@.len() as int;
            let ghost c = old(self).mip_level_count as int;
            assert(self.names@.len() * self.mip_level_count == (n + 1) * c);
            assert((n + 1) * c == n * c + c) by (nonlinear_arith);
            assert forall|k: int|
                0 <= k < self.mip_levels@.len() implies (#[trigger] self.mip_levels@[k]).0
                + self.mip_levels@[k].1 <= self.data@.len() by {
                if k >= old_table_len {
                    let j = k - old_table_len;
                    assert(self.mip_levels@[old_table_len + j] == self.mip_levels@[k]);
                    lemma_mip_prefix_step(old(self).dimension, j);
                    crate::texture::lemma_mip_prefix_monotonic(
                        old(self).dimension,
                        j + 1,
                        old(self).mip_level_count as int,
                    );
                } else {
                    crate::texture::lemma_mip_prefix_monotonic(
                        old(self).dimension,
                        0,
                        old(self).mip_level_count as int,
                    );
                }
            }
            assert forall|k: int|
                0 <= k < self.mip_levels@.len() implies (#[trigger] self.mip_levels@[k]).1
                == spec_mip_byte_length(
                self.dimension,
                (k % (self.mip_level_count as int)) as u32,
            ) by {
                let mlc = self.mip_level_count as int;
                if k >= old_table_len {
                    let j = k - old_table_len;
                    assert(self.mip_levels@[old_table_len + j] == self.mip_levels@[k]);
                    let nn = old(self).names@.len() as int;
                    assert(old_table_len == nn * mlc);
                    assert((nn * mlc + j) % mlc == j) by (nonlinear_arith)
                        requires
                            0 <= j < mlc && 0 <= nn,
                    ;
                }
            }
        }
        texture_index
    }

    /// The stored bytes of one mip level of one layer. Mip levels at or
    /// past the chain length and layers at or past the stored count are
    /// reported as typed errors.
    pub fn get(&self, layer_index: u32, mip_level_index: u32) -> (r: Result<&[u8], AssetError>)
        requires
            self.wf(),
        ensures
            mip_level_index >= self.mip_level_count ==> r == Err::<&[u8], AssetError>(
                AssetError::InvalidMipLevel { mip_level: mip_level_index },
            ),
            mip_level_index < self.mip_level_count && layer_index * self.mip_level_count
                + mip_level_index >= self.mip_levels@.len() ==> r == Err::<&[u8], AssetError>(
                AssetError::TextureLayerOutOfBounds { layer_index },
            ),
            mip_level_index < self.mip_level_count && layer_index * self.mip_level_count
                + mip_level_index < self.mip_levels@.len() ==> (r matches Ok(bytes)
                && bytes@ == self.data@.subrange(
                (#[trigger] self.mip_levels@[layer_index * self.mip_level_count
                    + mip_level_index]).0 as int,
                self.mip_levels@[layer_index * self.mip_level_count + mip_level_index].0
                    + self.mip_levels@[layer_index * self.mip_level_count + mip_level_index].1,
            )),
    {
        if mip_level_index >= self.mip_level_count {
            return Err(AssetError::InvalidMipLevel { mip_level: mip_level_index });
        }
        proof {
            assert((layer_index as int) * (self.mip_level_count as int) + (mip_level_index as int)
                < 0x1_0000_0000_0000_0000) by (nonlinear_arith)
                requires
                    layer_index <= 0xffff_ffffu32 && self.mip_level_count <= 0xffff_ffffu32
                        && mip_level_index <= 0xffff_ffffu32,
            ;
        }
        let index64 = layer_index as u64 * self.mip_level_count as u64 + mip_level_index as u64;
        if index64 >= self.mip_levels.len() as u64 {
            return Err(AssetError::TextureLayerOutOfBounds { layer_index });
        }
        let index = index64 as usize;
        let (offset, length) = self.mip_levels[index];
        proof {
            assert(self.mip_levels@[index as int].0 + self.mip_levels@[index as int].1
                <= self.data.len());
        }
        Ok(slice_subrange(self.data.as_slice(), offset, offset + length))
    }
}

/// Unfolds one step of the mip prefix sum.
proof fn lemma_mip_prefix_step(dimension: u32, level: int)
    requires
        0 <= level,
    ensures
        spec_mip_prefix_bytes(dimension, level + 1) == spec_mip_prefix_bytes(dimension, level)
            + spec_mip_byte_length(dimension, level as u32),
{
}

} // verus!
