use merlin::error::AssetError;
use merlin::loader::AssetLoader;
use merlin::texture::{TextureArray, FORMAT_BC6H_SFLOAT, FORMAT_BC7_SRGB};

fn face_u32(out: &mut Vec<u8>, value: u32) {
    out.extend_from_slice(&value.to_le_bytes());
}

fn face_u64(out: &mut Vec<u8>, value: u64) {
    out.extend_from_slice(&value.to_le_bytes());
}

/// Builds a container of the given header tuple whose level payloads
/// are filled with `fill`.
fn make_face(format: u32, width: u32, level_count: u32, fill: u8) -> Vec<u8> {
    let mut data = Vec::new();
    data.extend_from_slice(&[
        0xAB, 0x4B, 0x54, 0x58, 0x20, 0x32, 0x30, 0xBB, 0x0D, 0x0A, 0x1A, 0x0A,
    ]);
    face_u32(&mut data, format);
    face_u32(&mut data, 1);
    face_u32(&mut data, width);
    face_u32(&mut data, width);
    face_u32(&mut data, 0);
    face_u32(&mut data, 0);
    face_u32(&mut data, 1);
    face_u32(&mut data, level_count);
    face_u32(&mut data, 0);
    face_u32(&mut data, 0);
    face_u32(&mut data, 0);
    face_u32(&mut data, 0);
    face_u32(&mut data, 0);
    face_u64(&mut data, 0);
    face_u64(&mut data, 0);
    let entries = level_count.max(1);
    let mut offset = 80u64 + 24 * entries as u64;
    for m in 0..entries {
        let d = (width >> m).max(4) as u64;
        let size = d * d;
        face_u64(&mut data, offset);
        face_u64(&mut data, size);
        face_u64(&mut data, size);
        offset += size;
    }
    for m in 0..entries {
        let d = (width >> m).max(4) as usize;
        data.extend(std::iter::repeat(fill).take(d * d));
    }
    data
}

#[test]
fn six_matching_faces_make_a_cubemap() {
    let mut loader = AssetLoader::new();
    let faces: Vec<Vec<u8>> = (0..6u8)
        .map(|i| make_face(FORMAT_BC6H_SFLOAT, 1024, 1, 0x80 + i))
        .collect();
    let cubemap = loader
        .load_cubemap(
            String::from("px.ktx2"),
            &faces[0],
            String::from("nx.ktx2"),
            &faces[1],
            String::from("py.ktx2"),
            &faces[2],
            String::from("ny.ktx2"),
            &faces[3],
            String::from("pz.ktx2"),
            &faces[4],
            String::from("nz.ktx2"),
            &faces[5],
        )
        .unwrap();
    assert_eq!(cubemap.texture_array, TextureArray::NoMipRgbBc6hSFloat1024);
    assert_eq!(
        [
            cubemap.positive_x,
            cubemap.negative_x,
            cubemap.positive_y,
            cubemap.negative_y,
            cubemap.positive_z,
            cubemap.negative_z,
        ],
        [0, 1, 2, 3, 4, 5]
    );
    assert_eq!(loader.texture_arrays.no_mip_rgb_bc6h_sfloat_1024.count(), 6);
}

#[test]
fn a_mismatched_face_fails_the_cubemap() {
    let mut loader = AssetLoader::new();
    let good = |fill: u8| make_face(FORMAT_BC6H_SFLOAT, 1024, 1, fill);
    let odd = make_face(FORMAT_BC7_SRGB, 1024, 11, 0x55);
    let result = loader.load_cubemap(
        String::from("px.ktx2"),
        &good(0),
        String::from("nx.ktx2"),
        &good(1),
        String::from("py.ktx2"),
        &good(2),
        String::from("ny.ktx2"),
        &good(3),
        String::from("pz.ktx2"),
        &good(4),
        String::from("nz.ktx2"),
        &odd,
    );
    match result {
        Err(AssetError::NonMatchingCubemapTexture { name }) => assert_eq!(name, "nz.ktx2"),
        other => panic!("expected a non-matching-face error, got {:?}", other),
    }
    // the five good faces stayed stored
    assert_eq!(loader.texture_arrays.no_mip_rgb_bc6h_sfloat_1024.count(), 5);
}

#[test]
fn a_first_face_outside_the_allowed_kinds_fails_the_cubemap() {
    let mut loader = AssetLoader::new();
    let srgb = make_face(FORMAT_BC7_SRGB, 1024, 11, 0x66);
    let good = |fill: u8| make_face(FORMAT_BC6H_SFLOAT, 1024, 1, fill);
    let result = loader.load_cubemap(
        String::from("px.ktx2"),
        &srgb,
        String::from("nx.ktx2"),
        &good(1),
        String::from("py.ktx2"),
        &good(2),
        String::from("ny.ktx2"),
        &good(3),
        String::from("pz.ktx2"),
        &good(4),
        String::from("nz.ktx2"),
        &good(5),
    );
    match result {
        Err(AssetError::InvalidCubemapTexture { name }) => assert_eq!(name, "px.ktx2"),
        other => panic!("expected an invalid-cubemap error, got {:?}", other),
    }
}
