use wasm_ulmo_map::MaskInfo;

#[test]
fn flat_band_is_one_tile_deep() {
    // z1 = 16 * (1 + 4 + 1) = 96, z2 = 96 + 16 = 112
    let mask = MaskInfo::new(1, 4, true, 1, 16);
    assert_eq!(mask.tile_index(), 1);
    // an upright sprite is held against z1
    assert!(mask.hides(95, 2, true));
    assert!(!mask.hides(96, 2, true));
    // a flat sprite against z2
    assert!(mask.hides(111, 2, false));
    assert!(!mask.hides(112, 2, false));
}

#[test]
fn raised_band_is_two_tiles_deep() {
    // z1 = 16 * (2 + 2 + 1) = 80, z2 = 80 + 32 = 112
    let mask = MaskInfo::new(0, 2, false, 2, 16);
    assert_eq!(mask.tile_index(), 0);
    assert!(mask.hides(79, 1, true));
    assert!(!mask.hides(80, 1, true));
    assert!(mask.hides(111, 1, false));
    assert!(!mask.hides(112, 1, false));
}

#[test]
fn band_below_the_origin() {
    // z1 = 10 * (0 - 5 + 1) = -40, z2 = -40 + 10 = -30
    let mask = MaskInfo::new(7, -5, true, 0, 10);
    assert!(mask.hides(-41, -6, true));
    assert!(!mask.hides(-40, -6, true));
    assert!(mask.hides(-31, -6, false));
    assert!(!mask.hides(-30, -6, false));
}

#[test]
fn band_of_a_grid_without_extent() {
    let flat = MaskInfo::new(3, 4, true, 1, 0);
    assert!(flat.hides(-1, 0, true));
    assert!(!flat.hides(0, 0, true));
    assert!(!flat.hides(0, 0, false));
}

#[test]
fn flat_band_must_lie_above_the_sprite() {
    let mask = MaskInfo::new(1, 4, true, 1, 16);
    assert!(mask.hides(0, 3, true));
    assert!(!mask.hides(0, 4, true));
    assert!(!mask.hides(0, 5, true));
    assert!(!mask.hides(i32::MIN, 4, false));
}

#[test]
fn raised_band_may_share_the_sprites_level() {
    let mask = MaskInfo::new(0, 2, false, 2, 16);
    assert!(mask.hides(0, 1, true));
    assert!(mask.hides(0, 2, true));
    assert!(!mask.hides(0, 3, true));
    assert!(!mask.hides(i32::MIN, 3, true));
    assert!(!mask.hides(i32::MIN, 3, false));
}

#[test]
fn from_data_keeps_order_and_count() {
    let masks = MaskInfo::from_data(vec![(5, 4, true, 1), (6, 2, false, 2), (7, 0, true, 0)], &16);
    assert_eq!(masks.len(), 3);
    assert_eq!(masks[0].tile_index(), 5);
    assert_eq!(masks[1].tile_index(), 6);
    assert_eq!(masks[2].tile_index(), 7);
    // (5, 4, flat, row 1): z1 = 96
    assert!(masks[0].hides(95, 0, true));
    assert!(!masks[0].hides(96, 0, true));
    // (6, 2, raised, row 2): z2 = 112
    assert!(masks[1].hides(111, 0, false));
    assert!(!masks[1].hides(112, 0, false));
    // (7, 0, flat, row 0): z1 = 16, z2 = 32
    assert!(masks[2].hides(15, -1, true));
    assert!(!masks[2].hides(16, -1, true));
    assert!(masks[2].hides(31, -1, false));
    assert!(!masks[2].hides(32, -1, false));
}

#[test]
fn from_data_of_nothing() {
    let masks = MaskInfo::from_data(vec![], &16);
    assert!(masks.is_empty());
}

#[test]
fn representable_bands() {
    assert!(MaskInfo::representable(0, 4, true, 1, 16));
    assert!(MaskInfo::representable(0, 127, false, 255, 16));
    assert!(MaskInfo::representable(0, -128, false, 0, 16));
    assert!(MaskInfo::representable(0, 0, true, 0, 0));
    // 385 * 5_577_879 = 2_147_483_415 fits, one more tile size does not
    assert!(MaskInfo::representable(0, 127, false, 255, 5_577_879));
    assert!(!MaskInfo::representable(0, 127, false, 255, 5_577_880));
    // a flat band ends one tile earlier
    assert!(MaskInfo::representable(0, 127, true, 255, 5_577_880));
    // -127 * 16_909_320 = -2_147_483_640 fits, one more tile size does not
    assert!(MaskInfo::representable(0, -128, true, 0, 16_909_320));
    assert!(!MaskInfo::representable(0, -128, true, 0, 16_909_321));
    assert!(!MaskInfo::representable(0, 0, true, 0, u32::MAX));
    // one tile fits, two do not
    assert!(MaskInfo::representable(0, -1, true, 0, i32::MAX as u32));
    assert!(!MaskInfo::representable(0, -1, false, 0, i32::MAX as u32 + 1));
}

#[test]
fn largest_representable_band() {
    let mask = MaskInfo::new(9, 127, false, 255, 5_577_879);
    // z1 = 383 * 5_577_879 = 2_136_327_657, z2 = 2_147_483_415
    assert!(mask.hides(2_136_327_656, 0, true));
    assert!(!mask.hides(2_136_327_657, 0, true));
    assert!(mask.hides(2_147_483_414, 0, false));
    assert!(!mask.hides(2_147_483_415, 0, false));
}
