use pixel_flatten::{BitmapData, Color};

fn bitmap(values: &[u32]) -> BitmapData {
    BitmapData { pixels: values.iter().map(|v| Color(*v as i32)).collect() }
}

#[test]
fn channels_of_aabbccdd() {
    let c = Color(0xAABBCCDDu32 as i32);
    assert_eq!(c.red(), 0xBB);
    assert_eq!(c.green(), 0xCC);
    assert_eq!(c.blue(), 0xDD);
    assert_eq!(c.alpha(), 0xAA);
}

#[test]
fn channels_of_small_value() {
    let c = Color(777);
    assert_eq!(c.blue(), 0x09);
    assert_eq!(c.green(), 0x03);
    assert_eq!(c.red(), 0);
    assert_eq!(c.alpha(), 0);
}

#[test]
fn channel_by_position() {
    let c = Color(0x04030201);
    assert_eq!(c.channel(0), 3);
    assert_eq!(c.channel(1), 2);
    assert_eq!(c.channel(2), 1);
    assert_eq!(c.channel(3), 4);
}

#[test]
fn single_pixel_flattens_red_green_blue_alpha() {
    let b = bitmap(&[0x04030201]);
    assert_eq!(b.collect_loop(), vec![0x03, 0x02, 0x01, 0x04]);
    assert_eq!(b.collect_loop_with_prealloc(), vec![0x03, 0x02, 0x01, 0x04]);
    assert_eq!(b.collect_with_flat_map(), vec![0x03, 0x02, 0x01, 0x04]);
}

#[test]
fn empty_bitmap_flattens_to_nothing_and_sums_to_zero() {
    let b = bitmap(&[]);
    assert!(b.collect_loop().is_empty());
    assert!(b.collect_loop_with_prealloc().is_empty());
    assert!(b.collect_with_flat_map().is_empty());
    assert_eq!(b.iteration_nested_loop(), 0);
    assert_eq!(b.loop_flat_map(), 0);
}

#[test]
fn flatten_variants_agree_on_several_pixels() {
    let b = bitmap(&[0xAABBCCDD, 0x04030201, 0, 0xFFFFFFFF, 777]);
    let expected: Vec<u8> = vec![
        0xBB, 0xCC, 0xDD, 0xAA, 0x03, 0x02, 0x01, 0x04, 0, 0, 0, 0, 0xFF, 0xFF, 0xFF, 0xFF, 0x00,
        0x03, 0x09, 0x00,
    ];
    assert_eq!(b.collect_loop(), expected);
    assert_eq!(b.collect_loop_with_prealloc(), expected);
    assert_eq!(b.collect_with_flat_map(), expected);
}

#[test]
fn aggregate_variants_agree_on_several_pixels() {
    let b = bitmap(&[0xAABBCCDD, 0x04030201, 0, 0xFFFFFFFF, 777]);
    let expected: u32 = (0xAA + 0xBB + 0xCC + 0xDD) + 10 + 0 + 4 * 255 + 12;
    assert_eq!(b.iteration_nested_loop(), expected);
    assert_eq!(b.loop_flat_map(), expected);
}

#[test]
fn large_uniform_bitmap() {
    let b = BitmapData { pixels: vec![Color(777); 500000] };
    let flat = b.collect_loop();
    assert_eq!(flat.len(), 2_000_000);
    assert_eq!(&flat[4 * 123456..4 * 123457], &[0, 3, 9, 0]);
    assert_eq!(b.collect_loop_with_prealloc(), flat);
    assert_eq!(b.collect_with_flat_map(), flat);
    assert_eq!(b.iteration_nested_loop(), 6_000_000);
    assert_eq!(b.loop_flat_map(), 6_000_000);
}

#[test]
fn aggregation_wraps_around() {
    // 4_300_000 * 1020 = 4_386_000_000, which is 91_032_704 past 2^32.
    let b = BitmapData { pixels: vec![Color(-1); 4_300_000] };
    assert_eq!(b.iteration_nested_loop(), 91_032_704);
    assert_eq!(b.loop_flat_map(), 91_032_704);
}
