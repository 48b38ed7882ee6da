use merlin::frame::{catch_up_physics, clamp_surface_size, should_step_physics, update_time};
use merlin::frame::{DeltaTime, Timestamp};
use merlin::resident::texture_layer_count;
use merlin::texture::{classify, mip_dimension, TextureArray};
use merlin::texture::{FORMAT_BC5_UNORM, FORMAT_BC6H_SFLOAT, FORMAT_BC7_SRGB, FORMAT_BC7_UNORM};

#[test]
fn kind_ids_cover_all_binding_slots() {
    let kinds = [
        TextureArray::RgBc5Unorm512,
        TextureArray::RgBc5Unorm1024,
        TextureArray::RgBc5Unorm2048,
        TextureArray::RgBc5Unorm4096,
        TextureArray::RgbBc7Unorm512,
        TextureArray::RgbBc7Unorm1024,
        TextureArray::RgbBc7Unorm2048,
        TextureArray::RgbBc7Unorm4096,
        TextureArray::RgbaBc7Srgb512,
        TextureArray::RgbaBc7Srgb1024,
        TextureArray::RgbaBc7Srgb2048,
        TextureArray::RgbaBc7Srgb4096,
        TextureArray::NoMipRgbBc6hSFloat1024,
    ];
    for (expected, kind) in kinds.iter().enumerate() {
        assert_eq!(kind.id() as usize, expected);
    }
}

#[test]
fn kind_sizes_and_mip_counts() {
    assert_eq!(TextureArray::RgBc5Unorm512.size(), (512, 512));
    assert_eq!(TextureArray::RgBc5Unorm512.mip_level_count(), 10);
    assert_eq!(TextureArray::RgbBc7Unorm1024.size(), (1024, 1024));
    assert_eq!(TextureArray::RgbBc7Unorm1024.mip_level_count(), 11);
    assert_eq!(TextureArray::RgbaBc7Srgb2048.size(), (2048, 2048));
    assert_eq!(TextureArray::RgbaBc7Srgb2048.mip_level_count(), 12);
    assert_eq!(TextureArray::RgBc5Unorm4096.size(), (4096, 4096));
    assert_eq!(TextureArray::RgBc5Unorm4096.mip_level_count(), 13);
    assert_eq!(TextureArray::NoMipRgbBc6hSFloat1024.size(), (1024, 1024));
    assert_eq!(TextureArray::NoMipRgbBc6hSFloat1024.mip_level_count(), 1);
}

#[test]
fn classification_recognizes_exactly_the_defining_tuples() {
    assert_eq!(
        classify(FORMAT_BC5_UNORM, 2048, 2048, 12),
        Some(TextureArray::RgBc5Unorm2048)
    );
    assert_eq!(
        classify(FORMAT_BC7_SRGB, 512, 512, 10),
        Some(TextureArray::RgbaBc7Srgb512)
    );
    assert_eq!(
        classify(FORMAT_BC7_UNORM, 4096, 4096, 13),
        Some(TextureArray::RgbBc7Unorm4096)
    );
    assert_eq!(
        classify(FORMAT_BC6H_SFLOAT, 1024, 1024, 1),
        Some(TextureArray::NoMipRgbBc6hSFloat1024)
    );
    // right format, wrong mip count
    assert_eq!(classify(FORMAT_BC5_UNORM, 2048, 2048, 11), None);
    // non-square
    assert_eq!(classify(FORMAT_BC7_SRGB, 512, 1024, 10), None);
    // unknown format code
    assert_eq!(classify(7, 512, 512, 10), None);
    // the HDR kind never carries a mip chain
    assert_eq!(classify(FORMAT_BC6H_SFLOAT, 1024, 1024, 11), None);
}

#[test]
fn mip_dimension_floors_at_one_block() {
    assert_eq!(mip_dimension(4096, 0), 4096);
    assert_eq!(mip_dimension(512, 7), 4);
    assert_eq!(mip_dimension(512, 9), 4);
    assert_eq!(mip_dimension(512, 31), 4);
    assert_eq!(mip_dimension(512, 200), 4);
    assert_eq!(mip_dimension(16, 2), 4);
    assert_eq!(mip_dimension(2048, 3), 256);
}

#[test]
fn zero_layer_arrays_still_get_one_layer() {
    assert_eq!(texture_layer_count(0), 1);
    assert_eq!(texture_layer_count(1), 1);
    assert_eq!(texture_layer_count(7), 7);
}

#[test]
fn surface_resize_clamps_zero_extents() {
    assert_eq!(clamp_surface_size(0, 0), (1, 1));
    assert_eq!(clamp_surface_size(800, 600), (800, 600));
    assert_eq!(clamp_surface_size(0, 600), (1, 600));
    assert_eq!(clamp_surface_size(800, 0), (800, 1));
}

#[test]
fn clock_and_fixed_step_catch_up() {
    let mut timestamp = Timestamp(1_000);
    let mut delta = DeltaTime(0);
    update_time(5_000, &mut timestamp, &mut delta);
    assert_eq!(timestamp.0, 5_000);
    assert_eq!(delta.0, 4_000);

    assert!(!should_step_physics(15_624, 0));
    assert!(should_step_physics(15_625, 0));

    let (steps, new_last) = catch_up_physics(100_000, 0);
    assert_eq!(steps, 6);
    assert_eq!(new_last, 93_750);
    let (steps, new_last) = catch_up_physics(93_750, 93_750);
    assert_eq!(steps, 0);
    assert_eq!(new_last, 93_750);
}
