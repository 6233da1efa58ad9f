use facecrop::img::Rect;
use facecrop::viewport::pick;

#[test]
fn window_near_the_corner_is_clamped_to_the_origin() {
    let r = pick((10, 10), (50, 50), (100, 100));
    assert_eq!(r, Rect { x: 0, y: 0, w: 50, h: 50 });
    assert!(r.x + r.w <= 100 && r.y + r.h <= 100);
}

#[test]
fn window_past_the_far_corner_is_shifted_back() {
    let r = pick((500, 500), (50, 50), (100, 100));
    assert_eq!(r, Rect { x: 50, y: 50, w: 50, h: 50 });
}

#[test]
fn window_that_fits_is_centred() {
    let r = pick((400, 300), (100, 50), (1024, 768));
    assert_eq!(r, Rect { x: 350, y: 275, w: 100, h: 50 });
}

#[test]
fn window_shifts_by_the_overflow_only() {
    let r = pick((680, 20), (100, 100), (700, 700));
    assert_eq!(r, Rect { x: 600, y: 0, w: 100, h: 100 });
}

#[test]
fn window_larger_than_the_source_starts_at_zero() {
    let r = pick((50, 50), (200, 30), (100, 100));
    assert_eq!(r, Rect { x: 0, y: 35, w: 200, h: 30 });
    let r = pick((90, 5), (101, 300), (100, 100));
    assert_eq!(r, Rect { x: 0, y: 0, w: 101, h: 300 });
}

#[test]
fn window_as_large_as_the_source_covers_it() {
    let r = pick((3, 99), (100, 100), (100, 100));
    assert_eq!(r, Rect { x: 0, y: 0, w: 100, h: 100 });
}

#[test]
fn empty_source_gives_the_origin() {
    let r = pick((7, 7), (4, 4), (0, 0));
    assert_eq!(r, Rect { x: 0, y: 0, w: 4, h: 4 });
    let r = pick((7, 7), (0, 0), (0, 0));
    assert_eq!(r, Rect { x: 0, y: 0, w: 0, h: 0 });
}

#[test]
fn extreme_numbers_do_not_overflow() {
    let r = pick((u32::MAX, u32::MAX), (u32::MAX, 2), (u32::MAX, u32::MAX));
    assert_eq!(r, Rect { x: 0, y: u32::MAX - 2, w: u32::MAX, h: 2 });
    let r = pick((u32::MAX, 0), (3, u32::MAX), (10, 10));
    assert_eq!(r, Rect { x: 7, y: 0, w: 3, h: u32::MAX });
}

#[test]
fn odd_sizes_round_the_half_down() {
    let r = pick((10, 10), (5, 7), (100, 100));
    assert_eq!(r, Rect { x: 8, y: 7, w: 5, h: 7 });
}
