use facecrop::img::{Pt, Rect};
use facecrop::render::{frame_pixels, image_from_yuyv, marker, pack_frame, pack_rgb};

#[test]
fn colour_is_packed_red_highest() {
    assert_eq!(pack_rgb(0, 0, 0), 0);
    assert_eq!(pack_rgb(255, 0, 0), 0x00ff_0000);
    assert_eq!(pack_rgb(0, 255, 0), 0x0000_ff00);
    assert_eq!(pack_rgb(0, 0, 255), 0x0000_00ff);
    assert_eq!(pack_rgb(0x12, 0x34, 0x56), 0x0012_3456);
    assert_eq!(pack_rgb(255, 255, 255), 0x00ff_ffff);
}

#[test]
fn frame_is_packed_pixel_by_pixel() {
    let rgb = [1u8, 2, 3, 4, 5, 6, 255, 0, 128, 0, 0, 0];
    let mut buffer = vec![7u32; 4];
    pack_frame(&rgb, &mut buffer);
    assert_eq!(buffer, vec![0x0001_0203, 0x0004_0506, 0x00ff_0080, 0]);
}

#[test]
fn empty_frame_packs_to_nothing() {
    let mut buffer: Vec<u32> = Vec::new();
    pack_frame(&[], &mut buffer);
    assert!(buffer.is_empty());
}

#[test]
fn marker_is_a_dot_of_four_pixels() {
    let dots = marker(Pt { x: 10, y: 20 }, (100, 100));
    assert_eq!(dots, [(10, 20), (11, 20), (11, 21), (10, 21)]);
}

#[test]
fn marker_stays_on_the_frame() {
    let dots = marker(Pt { x: 99, y: 99 }, (100, 100));
    assert_eq!(dots, [(99, 99), (99, 99), (99, 99), (99, 99)]);
    let dots = marker(Pt { x: 500, y: 3 }, (100, 5));
    assert_eq!(dots, [(99, 3), (99, 3), (99, 4), (99, 4)]);
    let dots = marker(Pt { x: u32::MAX, y: u32::MAX }, (1, 1));
    assert_eq!(dots, [(0, 0), (0, 0), (0, 0), (0, 0)]);
    let dots = marker(Pt { x: u32::MAX, y: 0 }, (u32::MAX, u32::MAX));
    assert_eq!(dots[1], (u32::MAX - 1, 0));
}

#[test]
fn frame_of_a_rectangle_in_painting_order() {
    let dots = frame_pixels(Rect { x: 5, y: 7, w: 2, h: 3 });
    assert_eq!(
        dots,
        vec![
            (5, 7),
            (5, 10),
            (6, 7),
            (6, 10),
            (5, 7),
            (7, 7),
            (5, 8),
            (7, 8),
            (5, 9),
            (7, 9),
        ]
    );
}

#[test]
fn frame_of_an_empty_rectangle_is_empty() {
    assert!(frame_pixels(Rect { x: 5, y: 7, w: 0, h: 0 }).is_empty());
    assert_eq!(frame_pixels(Rect { x: 1, y: 1, w: 1, h: 0 }), vec![(1, 1), (1, 1)]);
}

#[test]
fn grey_image_takes_every_other_byte() {
    let yuyv = [10u8, 99, 20, 99, 30, 99, 40, 99];
    let image = image_from_yuyv(&yuyv, 2, 2).expect("a small image");
    assert_eq!(image, vec![10, 10, 10, 20, 20, 20, 30, 30, 30, 40, 40, 40]);
}

#[test]
fn grey_image_is_black_where_the_frame_ends() {
    let yuyv = [10u8, 99, 20, 99, 30];
    let image = image_from_yuyv(&yuyv, 2, 2).expect("a small image");
    assert_eq!(image, vec![10, 10, 10, 20, 20, 20, 0, 0, 0, 0, 0, 0]);
    let image = image_from_yuyv(&[1, 2, 3, 4, 5, 6], 1, 2).expect("a small image");
    assert_eq!(image, vec![1, 1, 1, 3, 3, 3]);
    assert_eq!(image_from_yuyv(&yuyv, 0, 9), Some(Vec::new()));
}

#[test]
fn grey_image_too_large_to_hold_is_refused() {
    assert_eq!(image_from_yuyv(&[], u32::MAX, u32::MAX), None);
}
