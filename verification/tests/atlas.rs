use sdit_core::render::atlas::{AtlasAllocator, AtlasPixels};

#[test]
fn reserve_returns_non_overlapping_regions() {
    let mut atlas = AtlasAllocator::new(32);
    let r1 = atlas.reserve(8, 8).unwrap();
    let r2 = atlas.reserve(8, 8).unwrap();
    assert_eq!(r1.y, r2.y);
    assert_eq!(r1.x + r1.width, r2.x);
}

#[test]
fn reserve_new_shelf_when_row_full() {
    let mut atlas = AtlasAllocator::new(16);
    let r1 = atlas.reserve(10, 8).unwrap();
    let r2 = atlas.reserve(10, 8).unwrap();
    assert_ne!(r1.y, r2.y);
}

#[test]
fn reserve_fails_when_full() {
    let mut atlas = AtlasAllocator::new(8);
    let _ = atlas.reserve(8, 8).unwrap();
    assert!(atlas.reserve(1, 1).is_none());
}

#[test]
fn clear_resets_atlas() {
    let mut atlas = AtlasAllocator::new(32);
    let mut pixels = AtlasPixels::new(32);
    let region = atlas.reserve(8, 8).unwrap();
    pixels.write(region, &[255u8; 256]);
    assert!(pixels.data().iter().any(|&b| b != 0));
    atlas.clear();
    pixels.clear();
    assert!(pixels.data().iter().all(|&b| b == 0), "all bytes are zero after clear");
    let region2 = atlas.reserve(8, 8);
    assert!(region2.is_some(), "reserve works after clear");
}

#[test]
fn write_stores_rgba_pixels_correctly() {
    let mut atlas = AtlasAllocator::new(16);
    let mut pixels = AtlasPixels::new(16);
    let region = atlas.reserve(2, 2).unwrap();
    let data = [10u8, 20, 30, 40, 50, 60, 70, 80, 90, 100, 110, 120, 130, 140, 150, 160];
    pixels.write(region, &data);
    let base = ((region.y * pixels.size() + region.x) * 4) as usize;
    assert_eq!(pixels.data()[base], 10);
    assert_eq!(pixels.data()[base + 1], 20);
    assert_eq!(pixels.data()[base + 2], 30);
    assert_eq!(pixels.data()[base + 3], 40);
    assert_eq!(pixels.data()[base + 4], 50);
    let row1_base = base + (pixels.size() * 4) as usize;
    assert_eq!(pixels.data()[row1_base], 90);
    assert_eq!(pixels.data()[row1_base + 1], 100);
    assert!(pixels.is_dirty());
}

#[test]
fn write_rejects_wrong_size() {
    let mut atlas = AtlasAllocator::new(16);
    let mut pixels = AtlasPixels::new(16);
    let region = atlas.reserve(2, 2).unwrap();
    pixels.write(region, &[10u8, 20, 30, 40]);
    let base = ((region.y * pixels.size() + region.x) * 4) as usize;
    assert_eq!(pixels.data()[base], 0, "wrong-size write should be rejected");
    assert!(!pixels.is_dirty());
}
