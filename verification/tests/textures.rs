use overlands_agent::texture::{default_mip_level_count, TextureData};

#[test]
fn a_flat_texture_has_the_size_asked_for_and_one_level() {
    let t = TextureData::flat(2, 3);
    assert_eq!((t.width, t.height, t.mip_level_count), (2, 3, 1));
    assert_eq!(t.albedo.len(), 24);
    assert_eq!(&t.albedo[..8], &[0, 0, 0, 255, 0, 0, 0, 255]);
    assert_eq!(&t.normal[..4], &[128, 128, 255, 255]);
    assert!(t.roughness.iter().all(|&b| b == 255));
    assert!(t.emissive.is_none());
    assert_eq!(default_mip_level_count(), 1);
}
