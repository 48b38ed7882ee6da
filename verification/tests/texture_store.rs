use merlin::error::AssetError;
use merlin::loader::AssetLoader;
use merlin::resident::upload_plan;
use merlin::texture::{TextureArray, FORMAT_BC5_UNORM, FORMAT_BC7_SRGB};

fn push_u32(out: &mut Vec<u8>, value: u32) {
    out.extend_from_slice(&value.to_le_bytes());
}

fn push_u64(out: &mut Vec<u8>, value: u64) {
    out.extend_from_slice(&value.to_le_bytes());
}

fn mip_size(width: u32, level: u32) -> usize {
    let d = (width >> level).max(4) as usize;
    d * d
}

/// Builds a block-compressed container with the given header tuple and
/// one payload per mip level, level `m` filled with the byte `fill + m`.
fn make_container(format: u32, width: u32, height: u32, level_count: u32, fill: u8) -> Vec<u8> {
    let mut data = Vec::new();
    data.extend_from_slice(&[
        0xAB, 0x4B, 0x54, 0x58, 0x20, 0x32, 0x30, 0xBB, 0x0D, 0x0A, 0x1A, 0x0A,
    ]);
    push_u32(&mut data, format); // vkFormat
    push_u32(&mut data, 1); // typeSize
    push_u32(&mut data, width);
    push_u32(&mut data, height);
    push_u32(&mut data, 0); // pixelDepth
    push_u32(&mut data, 0); // layerCount
    push_u32(&mut data, 1); // faceCount
    push_u32(&mut data, level_count);
    push_u32(&mut data, 0); // supercompressionScheme
    push_u32(&mut data, 0); // dfdByteOffset
    push_u32(&mut data, 0); // dfdByteLength
    push_u32(&mut data, 0); // kvdByteOffset
    push_u32(&mut data, 0); // kvdByteLength
    push_u64(&mut data, 0); // sgdByteOffset
    push_u64(&mut data, 0); // sgdByteLength
    let entries = level_count.max(1);
    let mut offset = 80u64 + 24 * entries as u64;
    for m in 0..entries {
        let size = mip_size(width, m) as u64;
        push_u64(&mut data, offset);
        push_u64(&mut data, size);
        push_u64(&mut data, size);
        offset += size;
    }
    for m in 0..entries {
        let size = mip_size(width, m);
        data.extend(std::iter::repeat(fill.wrapping_add(m as u8)).take(size));
    }
    data
}

#[test]
fn classification_routes_to_the_matching_array() {
    let mut loader = AssetLoader::new();
    let bc5 = make_container(FORMAT_BC5_UNORM, 2048, 2048, 12, 0x11);
    let srgb = make_container(FORMAT_BC7_SRGB, 512, 512, 10, 0x22);
    let (kind, id) = loader.load_texture(String::from("a.ktx2"), &bc5).unwrap();
    assert_eq!(kind, TextureArray::RgBc5Unorm2048);
    assert_eq!(id, 0);
    let (kind, id) = loader.load_texture(String::from("b.ktx2"), &srgb).unwrap();
    assert_eq!(kind, TextureArray::RgbaBc7Srgb512);
    assert_eq!(id, 0);
}

#[test]
fn stored_levels_read_back_the_container_payloads() {
    let mut loader = AssetLoader::new();
    let data = make_container(FORMAT_BC7_SRGB, 512, 512, 10, 0x40);
    loader.load_texture(String::from("t.ktx2"), &data).unwrap();
    let map = &loader.texture_arrays.rgba_bc7_srgb_512;
    assert_eq!(map.count(), 1);
    for m in 0..10u32 {
        let level = map.get(0, m).unwrap();
        assert_eq!(level.len(), mip_size(512, m));
        assert!(level.iter().all(|&b| b == 0x40u8.wrapping_add(m as u8)));
    }
}

#[test]
fn loading_the_same_name_twice_yields_the_same_kind_and_id() {
    let mut loader = AssetLoader::new();
    let data = make_container(FORMAT_BC7_SRGB, 512, 512, 10, 0x01);
    let first = loader.load_texture(String::from("dup.ktx2"), &data).unwrap();
    let second = loader.load_texture(String::from("dup.ktx2"), &data).unwrap();
    assert_eq!(first, second);
    assert_eq!(loader.texture_arrays.rgba_bc7_srgb_512.count(), 1);
    // even with different bytes, a known name is answered from the store
    let other = make_container(FORMAT_BC5_UNORM, 512, 512, 10, 0x02);
    let third = loader.load_texture(String::from("dup.ktx2"), &other).unwrap();
    assert_eq!(first, third);
}

#[test]
fn distinct_names_get_sequential_layers() {
    let mut loader = AssetLoader::new();
    let a = make_container(FORMAT_BC7_SRGB, 512, 512, 10, 0x01);
    let b = make_container(FORMAT_BC7_SRGB, 512, 512, 10, 0x02);
    let (_, id_a) = loader.load_texture(String::from("a.ktx2"), &a).unwrap();
    let (_, id_b) = loader.load_texture(String::from("b.ktx2"), &b).unwrap();
    assert_eq!(id_a, 0);
    assert_eq!(id_b, 1);
    assert_eq!(loader.texture_arrays.rgba_bc7_srgb_512.count(), 2);
}

#[test]
fn unrecognized_header_tuples_are_rejected() {
    let mut loader = AssetLoader::new();
    let data = make_container(FORMAT_BC7_SRGB, 512, 512, 9, 0);
    match loader.load_texture(String::from("odd.ktx2"), &data) {
        Err(AssetError::UnsupportedTextureFormat {
            name,
            format,
            width,
            height,
            mip_level_count,
        }) => {
            assert_eq!(name, "odd.ktx2");
            assert_eq!(format, FORMAT_BC7_SRGB);
            assert_eq!(width, 512);
            assert_eq!(height, 512);
            assert_eq!(mip_level_count, 9);
        }
        other => panic!("expected an unsupported-format error, got {:?}", other),
    }
}

#[test]
fn malformed_containers_are_rejected() {
    let mut loader = AssetLoader::new();
    let garbage = vec![0u8; 40];
    match loader.load_texture(String::from("bad.ktx2"), &garbage) {
        Err(AssetError::InvalidTexture { name }) => assert_eq!(name, "bad.ktx2"),
        other => panic!("expected an invalid-texture error, got {:?}", other),
    }
    // recognized tuple, but a level payload of the wrong size
    let mut short = make_container(FORMAT_BC7_SRGB, 512, 512, 10, 0);
    let len = short.len();
    short.truncate(len - 8);
    // fix the last level index entry to stay in bounds but wrong-sized
    let last_entry = 80 + 24 * 9 + 8;
    short[last_entry..last_entry + 8].copy_from_slice(&8u64.to_le_bytes());
    match loader.load_texture(String::from("short.ktx2"), &short) {
        Err(AssetError::InvalidTexture { name }) => assert_eq!(name, "short.ktx2"),
        other => panic!("expected an invalid-texture error, got {:?}", other),
    }
}

#[test]
fn level_access_is_bounds_checked() {
    let mut loader = AssetLoader::new();
    let data = make_container(FORMAT_BC7_SRGB, 512, 512, 10, 0);
    loader.load_texture(String::from("t.ktx2"), &data).unwrap();
    let map = &loader.texture_arrays.rgba_bc7_srgb_512;
    assert!(matches!(
        map.get(0, 10),
        Err(AssetError::InvalidMipLevel { mip_level: 10 })
    ));
    assert!(matches!(
        map.get(1, 0),
        Err(AssetError::TextureLayerOutOfBounds { layer_index: 1 })
    ));
}

#[test]
fn upload_plan_mirrors_the_arena_layout() {
    let mut loader = AssetLoader::new();
    let data = make_container(FORMAT_BC7_SRGB, 512, 512, 10, 0x07);
    loader.load_texture(String::from("t.ktx2"), &data).unwrap();
    let map = &loader.texture_arrays.rgba_bc7_srgb_512;
    let plan = upload_plan(map);
    assert_eq!(plan.len(), 10);
    for (k, upload) in plan.iter().enumerate() {
        assert_eq!(upload.layer, 0);
        assert_eq!(upload.level as usize, k);
        assert_eq!((upload.offset, upload.length), map.mip_levels[k]);
        let d = (512u32 >> upload.level).max(4);
        assert_eq!(upload.dimension, d);
        assert_eq!(upload.bytes_per_row, 16 * (d / 4));
        assert_eq!(upload.rows_per_image, d / 4);
    }
}
