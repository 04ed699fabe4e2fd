use popone::bloom::{
    clamp_levels, down_sources, ensure_targets, level_sizes, up_sources, BloomTargets,
    ExternalBindCache, DEFAULT_BLOOM_RADIUS, MAX_LEVELS,
};

#[test]
fn levels_are_clamped() {
    assert_eq!(clamp_levels(0), 1);
    assert_eq!(clamp_levels(4), 4);
    assert_eq!(clamp_levels(9), MAX_LEVELS);
    assert_eq!(DEFAULT_BLOOM_RADIUS, 4);
}

#[test]
fn level_sizes_halve_down_to_one_pixel() {
    assert_eq!(
        level_sizes(1920, 1080, 4),
        vec![(960, 540), (480, 270), (240, 135), (120, 67)]
    );
    assert_eq!(level_sizes(6, 3, 10), vec![(3, 1), (1, 1), (1, 1), (1, 1), (1, 1), (1, 1)]);
    assert_eq!(level_sizes(1, 1, 0), vec![(1, 1)]);
    // each level is the target size over 2^(i+1), at least one pixel
    let sizes = level_sizes(1000, 37, 6);
    for (i, (w, h)) in sizes.iter().enumerate() {
        assert_eq!(*w, (1000u32 >> (i + 1)).max(1));
        assert_eq!(*h, (37u32 >> (i + 1)).max(1));
    }
}

#[test]
fn blur_passes_read_neighbouring_levels() {
    assert_eq!(up_sources(4), vec![3, 2, 1]);
    assert_eq!(down_sources(4), vec![0, 1, 2]);
    assert!(up_sources(1).is_empty());
    assert!(down_sources(1).is_empty());
}

#[test]
fn textures_rebuilt_only_on_change() {
    let (t, rebuild) = ensure_targets(None, 800, 600, 4);
    assert!(rebuild);
    assert_eq!(t, BloomTargets { width: 800, height: 600, num_levels: 4 });
    let (t2, rebuild) = ensure_targets(Some(t), 800, 600, 4);
    assert!(!rebuild);
    assert_eq!(t2, t);
    let (_, rebuild) = ensure_targets(Some(t), 800, 601, 4);
    assert!(rebuild);
    // 9 levels are clamped to 6: a rebuild for 6 then none for 9
    let (t6, _) = ensure_targets(Some(t), 800, 600, 6);
    let (_, rebuild) = ensure_targets(Some(t6), 800, 600, 9);
    assert!(!rebuild);
}

#[test]
fn external_cache_invalidation() {
    let mut c = ExternalBindCache { down0: Some(1), composite: Some(2) };
    c.invalidate_external_cache();
    assert_eq!(c.down0, None);
    assert_eq!(c.composite, None);
}
