//! The block-compressed texture container: a fixed 80-byte header, a level
//! index, and concatenated level payloads.
//!
//! The container is decoded by an outside parser. Before handing bytes to
//! it, `container_wf_check` establishes the well-formedness conditions
//! under which the parser is known to succeed without panicking; the
//! parser's result is then pinned to the bytes by `read_container`'s
//! contract, and everything downstream is verified against that.

use vstd::prelude::*;
use crate::bytes::{le32_at, le64_at, spec_le32_at, spec_le64_at};

verus! {

/// Byte offset of the format word in the header.
pub const HEADER_FORMAT_OFFSET: usize = 12;

/// Byte offset of the pixel-width word in the header.
pub const HEADER_WIDTH_OFFSET: usize = 20;

/// Byte offset of the pixel-height word in the header.
pub const HEADER_HEIGHT_OFFSET: usize = 24;

/// Byte offset of the face-count word in the header.
pub const HEADER_FACE_COUNT_OFFSET: usize = 36;

/// Byte offset of the level-count word in the header.
pub const HEADER_LEVEL_COUNT_OFFSET: usize = 40;

/// Byte offset of the format-descriptor offset word in the header.
pub const HEADER_DFD_OFFSET_OFFSET: usize = 48;

/// Byte offset of the format-descriptor length word in the header.
pub const HEADER_DFD_LENGTH_OFFSET: usize = 52;

/// Total length of the fixed header.
pub const HEADER_LENGTH: usize = 80;

/// Length of one level index entry: offset, length and uncompressed
/// length, each a 64-bit word.
pub const LEVEL_INDEX_ENTRY_LENGTH: usize = 24;

/// Whether `data` starts with the container's 12-byte identifier.
pub open spec fn spec_has_magic(data: Seq<u8>) -> bool {
    &&& data[0] == 0xab
    &&& data[1] == 0x4b
    &&& data[2] == 0x54
    &&& data[3] == 0x58
    &&& data[4] == 0x20
    &&& data[5] == 0x32
    &&& data[6] == 0x30
    &&& data[7] == 0xbb
    &&& data[8] == 0x0d
    &&& data[9] == 0x0a
    &&& data[10] == 0x1a
    &&& data[11] == 0x0a
}

/// The number of level index entries: the header's level count, with a
/// floor of one.
pub open spec fn spec_level_entry_count(data: Seq<u8>) -> int {
    if spec_le32_at(data, HEADER_LEVEL_COUNT_OFFSET as int) == 0 {
        1
    } else {
        spec_le32_at(data, HEADER_LEVEL_COUNT_OFFSET as int)
    }
}

/// The byte offset of level `i`'s payload, from its level index entry.
pub open spec fn spec_level_offset(data: Seq<u8>, i: int) -> int {
    spec_le64_at(data, HEADER_LENGTH + i * LEVEL_INDEX_ENTRY_LENGTH)
}

/// The byte length of level `i`'s payload, from its level index entry.
pub open spec fn spec_level_length(data: Seq<u8>, i: int) -> int {
    spec_le64_at(data, HEADER_LENGTH + i * LEVEL_INDEX_ENTRY_LENGTH + 8)
}

/// Well-formedness of a container: the identifier and header are present,
/// width and face count are nonzero, the format-descriptor range and every
/// level payload lie inside the data, and no length field overflows the
/// word it is added in. Under these conditions the outside parser accepts
/// the container and every level payload can be sliced out of it.
pub open spec fn spec_container_wf(data: Seq<u8>) -> bool {
    &&& data.len() >= HEADER_LENGTH
    &&& spec_has_magic(data)
    &&& spec_le32_at(data, HEADER_WIDTH_OFFSET as int) != 0
    &&& spec_le32_at(data, HEADER_FACE_COUNT_OFFSET as int) != 0
    &&& spec_le32_at(data, HEADER_DFD_OFFSET_OFFSET as int) + spec_le32_at(
        data,
        HEADER_DFD_LENGTH_OFFSET as int,
    ) < 0x1_0000_0000
    &&& spec_le32_at(data, HEADER_DFD_OFFSET_OFFSET as int) + spec_le32_at(
        data,
        HEADER_DFD_LENGTH_OFFSET as int,
    ) < data.len()
    &&& data.len() >= HEADER_LENGTH + spec_level_entry_count(data) * LEVEL_INDEX_ENTRY_LENGTH
    &&& forall|i: int|
        0 <= i < spec_level_entry_count(data) ==> spec_level_offset(data, i) + spec_level_length(
            data,
            i,
        ) <= data.len()
}

/// Decides `spec_container_wf` for a byte vector.
#[verifier::loop_isolation(false)]
pub fn container_wf_check(data: &Vec<u8>) -> (b: bool)
    ensures
        b == spec_container_wf(data@),
{
    if data.len() < HEADER_LENGTH {
        return false;
    }
    if !(data[0] == 0xab && data[1] == 0x4b && data[2] == 0x54 && data[3] == 0x58 && data[4]
        == 0x20 && data[5] == 0x32 && data[6] == 0x30 && data[7] == 0xbb && data[8] == 0x0d
        && data[9] == 0x0a && data[10] == 0x1a && data[11] == 0x0a) {
        return false;
    }
    if le32_at(data, HEADER_WIDTH_OFFSET) == 0 {
        return false;
    }
    if le32_at(data, HEADER_FACE_COUNT_OFFSET) == 0 {
        return false;
    }
    let dfd_offset = le32_at(data, HEADER_DFD_OFFSET_OFFSET) as u64;
    let dfd_length = le32_at(data, HEADER_DFD_LENGTH_OFFSET) as u64;
    if dfd_offset + dfd_length >= 0x1_0000_0000 {
        return false;
    }
    if dfd_offset + dfd_length >= data.len() as u64 {
        return false;
    }
    let level_count = le32_at(data, HEADER_LEVEL_COUNT_OFFSET);
    let entry_count: u32 = if level_count == 0 {
        1
    } else {
        level_count
    };
    let data_len = data.len() as u64;
    let index_end: u64 = HEADER_LENGTH as u64 + (entry_count as u64) * 24;
    if data_len < index_end {
        return false;
    }
    let mut i: u32 = 0;
    while i < entry_count
        invariant
            0 <= i <= entry_count,
            forall|j: int|
                0 <= j < i ==> spec_level_offset(data@, j) + spec_level_length(data@, j)
                    <= data@.len(),
        decreases entry_count - i,
    {
        let base64: u64 = HEADER_LENGTH as u64 + (i as u64) * 24;
        assert(base64 + 24 <= index_end);
        let base: usize = base64 as usize;
        let level_offset = le64_at(data, base);
        let level_length = le64_at(data, base + 8);
        if !(level_offset <= data_len && level_length <= data_len - level_offset) {
            proof {
                assert(base as int == HEADER_LENGTH + (i as int) * LEVEL_INDEX_ENTRY_LENGTH);
                assert(level_offset == spec_level_offset(data@, i as int));
                assert(level_length == spec_level_length(data@, i as int));
                assert(spec_level_offset(data@, i as int) + spec_level_length(data@, i as int)
                    > data@.len());
            }
            return false;
        }
        i = i + 1;
    }
    true
}

/// A decoded container: the header fields the classifier reads, and one
/// byte vector per mip level, largest level first.
pub struct ContainerTexture {
    /// The container's format code; zero when the container names none.
    pub format: u32,
    pub width: u32,
    pub height: u32,
    pub level_count: u32,
    pub levels: Vec<Vec<u8>>,
}

/// Relies on `ktx2::Reader` of the ktx2 crate. On input satisfying
/// `spec_container_wf`, `Reader::new` runs every check on its success path
/// (identifier, header length, nonzero width and face count, format
/// descriptor range, level index integrity), so it returns a reader; the
/// header fields it decodes are the little-endian words at the fixed
/// offsets above, and `levels` yields, for each of the `max(level count,
/// 1)` level index entries, the byte range of `data` that the entry names.
#[verifier::external_body]
pub(crate) fn read_container(data: &Vec<u8>) -> (r: ContainerTexture)
    requires
        spec_container_wf(data@),
    ensures
        r.format == spec_le32_at(data@, HEADER_FORMAT_OFFSET as int),
        r.width == spec_le32_at(data@, HEADER_WIDTH_OFFSET as int),
        r.height == spec_le32_at(data@, HEADER_HEIGHT_OFFSET as int),
        r.level_count == spec_le32_at(data@, HEADER_LEVEL_COUNT_OFFSET as int),
        r.levels@.len() == spec_level_entry_count(data@),
        forall|i: int|
            0 <= i < r.levels@.len() ==> r.levels@[i]@ == data@.subrange(
                spec_level_offset(data@, i),
                spec_level_offset(data@, i) + spec_level_length(data@, i),
            ),
{
    let reader = ktx2::Reader::new(data).unwrap();
    let header = reader.header();
    ContainerTexture {
        format: header.format.map_or(0, |f| f.0.get()),
        width: header.pixel_width,
        height: header.pixel_height,
        level_count: header.level_count,
        levels: reader.levels().map(|level| level.to_vec()).collect(),
    }
}

} // verus!
