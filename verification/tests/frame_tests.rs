use racoon_camera::color::{lift_pixel, Rgb, Rgba};
use racoon_camera::detection::{fit_box, PixelBox};
use racoon_camera::frame::{circle_fits, Frame};

fn frame_from_pixels(width: u32, height: u32, pixels: &[[u8; 4]]) -> Frame {
    let mut data = Vec::new();
    for p in pixels {
        data.extend_from_slice(p);
    }
    Frame::new(width, height, data).unwrap()
}

#[test]
fn lift_pixel_raises_channels_and_keeps_alpha() {
    let p = lift_pixel(Rgba::new(10, 200, 30, 77), Rgb::new(50, 100, 30));
    assert_eq!(p, Rgba::new(50, 200, 30, 77));
}

#[test]
fn lift_pixel_twice_is_once() {
    let c = Rgb::new(120, 5, 250);
    let p = Rgba::new(100, 9, 251, 3);
    let once = lift_pixel(p, c);
    assert_eq!(lift_pixel(once, c), once);
}

#[test]
fn lift_pixel_by_black_changes_nothing() {
    let p = Rgba::new(1, 2, 3, 4);
    assert_eq!(lift_pixel(p, Rgb::black()), p);
}

#[test]
fn new_frame_checks_length() {
    assert!(Frame::new(2, 2, vec![0; 16]).is_some());
    assert!(Frame::new(2, 2, vec![0; 15]).is_none());
    assert!(Frame::new(2, 2, vec![0; 17]).is_none());
    assert!(Frame::new(0, 5, vec![]).is_some());
    assert!(Frame::new(0, 5, vec![0; 4]).is_none());
}

fn blank(width: u32, height: u32) -> Frame {
    Frame::new(width, height, vec![0; 4 * (width * height) as usize]).unwrap()
}

#[test]
fn new_frame_keeps_size_and_bytes() {
    let f = Frame::new(3, 2, (0..24).collect()).unwrap();
    assert_eq!(f.width(), 3);
    assert_eq!(f.height(), 2);
    assert_eq!(f.as_bytes(), &(0..24).collect::<Vec<u8>>());
    assert_eq!(f.get_pixel(1, 1), Rgba::new(16, 17, 18, 19));
}

#[test]
fn get_and_put_pixel() {
    let mut f = blank(3, 2);
    f.put_pixel(2, 1, Rgba::new(9, 8, 7, 6));
    assert_eq!(f.get_pixel(2, 1), Rgba::new(9, 8, 7, 6));
    assert_eq!(f.get_pixel(1, 1), Rgba::new(0, 0, 0, 0));
    let bytes = f.into_bytes();
    assert_eq!(&bytes[20..24], &[9, 8, 7, 6]);
}

#[test]
fn lift_colors_on_every_pixel() {
    let f = frame_from_pixels(2, 1, &[[0, 100, 200, 255], [255, 0, 10, 0]]);
    let out = f.lift_colors(Rgb::new(50, 50, 50));
    assert_eq!(out.as_bytes(), &vec![50, 100, 200, 255, 255, 50, 50, 0]);
}

#[test]
fn lift_colors_by_black_is_identity() {
    let f = frame_from_pixels(2, 2, &[[1, 2, 3, 4], [5, 6, 7, 8], [9, 10, 11, 12], [13, 14, 15, 16]]);
    let before = f.as_bytes().clone();
    let out = f.lift_colors(Rgb::black());
    assert_eq!(out.as_bytes(), &before);
}

#[test]
fn camera_bytes_reverse_pixel_order_rgba() {
    let f = frame_from_pixels(3, 1, &[[1, 2, 3, 4], [5, 6, 7, 8], [9, 10, 11, 12]]);
    assert_eq!(f.camera_bytes(), vec![9, 10, 11, 12, 5, 6, 7, 8, 1, 2, 3, 4]);
}

#[test]
fn camera_bytes_round_trip() {
    let f = frame_from_pixels(2, 2, &[[1, 2, 3, 4], [5, 6, 7, 8], [9, 10, 11, 12], [13, 14, 15, 16]]);
    let once = Frame::new(2, 2, f.camera_bytes()).unwrap();
    assert_eq!(once.camera_bytes(), f.as_bytes().clone());
}

#[test]
fn camera_bytes_of_empty_frame() {
    let f = blank(0, 0);
    assert!(f.camera_bytes().is_empty());
}

#[test]
fn circle_mask_blacks_out_corners() {
    // 4 x 4: centre (2, 2), radius 2.
    let f = frame_from_pixels(4, 4, &[[10, 20, 30, 40]; 16]);
    let out = f.circle_masked(Rgb::new(15, 15, 15));
    // corner (0, 0): 4 + 4 >= 4, outside
    assert_eq!(out.get_pixel(0, 0), Rgba::new(0, 0, 0, 255));
    // (2, 1): 0 + 1 < 4, inside
    assert_eq!(out.get_pixel(2, 1), Rgba::new(15, 20, 30, 40));
    // (2, 0): 0 + 4 >= 4, outside (on the circle)
    assert_eq!(out.get_pixel(2, 0), Rgba::new(0, 0, 0, 255));
    // (1, 2): 1 + 0 < 4, inside
    assert_eq!(out.get_pixel(1, 2), Rgba::new(15, 20, 30, 40));
}

#[test]
fn circle_mask_twice_is_once() {
    let f = frame_from_pixels(4, 3, &[[200, 1, 2, 9]; 12]);
    let c = Rgb::new(5, 60, 7);
    let once = f.circle_masked(c);
    let once_bytes = once.as_bytes().clone();
    let twice = once.circle_masked(c);
    assert_eq!(twice.as_bytes(), &once_bytes);
}

#[test]
fn circle_mask_of_one_row_frame_is_all_black() {
    // height 1: radius 0, every pixel is on or outside the circle.
    let f = frame_from_pixels(3, 1, &[[1, 2, 3, 4]; 3]);
    let out = f.circle_masked(Rgb::new(100, 100, 100));
    assert_eq!(out.as_bytes(), &vec![0, 0, 0, 255, 0, 0, 0, 255, 0, 0, 0, 255]);
}

#[test]
fn resized_to_same_size_is_identity() {
    let f = frame_from_pixels(2, 2, &[[1, 2, 3, 255], [50, 60, 70, 255], [9, 8, 7, 255], [0, 0, 0, 255]]);
    let out = f.resized(2, 2);
    assert_eq!(out.as_bytes(), f.as_bytes());
}

#[test]
fn resized_changes_size() {
    let f = frame_from_pixels(2, 2, &[[10, 20, 30, 255]; 4]);
    let out = f.resized(4, 3);
    assert_eq!(out.width(), 4);
    assert_eq!(out.height(), 3);
    assert_eq!(out.as_bytes().len(), 48);
    // a uniform opaque image stays uniform
    for k in 0..12 {
        assert_eq!(&out.as_bytes()[4 * k..4 * k + 4], &[10, 20, 30, 255]);
    }
}

#[test]
fn resized_empty_frame_gives_zeros() {
    let f = blank(0, 3);
    let out = f.resized(2, 2);
    assert_eq!(out.as_bytes(), &vec![0u8; 16]);
}

#[test]
fn zoom_onto_whole_frame_is_identity() {
    let f = frame_from_pixels(3, 2, &[[1, 2, 3, 255], [4, 5, 6, 255], [7, 8, 9, 255], [10, 11, 12, 255], [13, 14, 15, 255], [16, 17, 18, 255]]);
    let out = f.zoomed(PixelBox::new(0, 0, 100, 100));
    assert_eq!(out.as_bytes(), f.as_bytes());
}

#[test]
fn zoom_onto_empty_box_is_transparent_black() {
    let f = frame_from_pixels(2, 2, &[[1, 2, 3, 255]; 4]);
    let out = f.zoomed(PixelBox::zero());
    assert_eq!(out.width(), 2);
    assert_eq!(out.height(), 2);
    assert_eq!(out.as_bytes(), &vec![0u8; 16]);
}

#[test]
fn zoom_onto_one_pixel_fills_frame_with_it() {
    let f = frame_from_pixels(2, 2, &[[1, 2, 3, 255], [200, 100, 50, 255], [7, 8, 9, 255], [10, 11, 12, 255]]);
    let out = f.zoomed(PixelBox::new(1, 0, 1, 1));
    for k in 0..4 {
        assert_eq!(&out.as_bytes()[4 * k..4 * k + 4], &[200, 100, 50, 255]);
    }
}

#[test]
fn zoom_box_beyond_frame_is_clamped() {
    // x past the right edge: nothing left to show
    let f = frame_from_pixels(2, 2, &[[1, 2, 3, 255]; 4]);
    let out = f.zoomed(PixelBox::new(5, 0, 2, 2));
    assert_eq!(out.as_bytes(), &vec![0u8; 16]);
}

#[test]
fn fit_box_cuts_at_edges() {
    assert_eq!(fit_box(10, 20, 100, 100, 50, 60), PixelBox::new(10, 20, 40, 40));
    assert_eq!(fit_box(10, 20, 5, 6, 50, 60), PixelBox::new(10, 20, 5, 6));
    assert_eq!(fit_box(50, 60, 5, 6, 50, 60), PixelBox::new(50, 60, 0, 0));
}

#[test]
fn lifting_by_two_colors_commutes() {
    let p = Rgba::new(30, 140, 0, 9);
    let c1 = Rgb::new(100, 20, 5);
    let c2 = Rgb::new(50, 200, 1);
    let a = lift_pixel(lift_pixel(p, c1), c2);
    let b = lift_pixel(lift_pixel(p, c2), c1);
    assert_eq!(a, b);
    assert_eq!(a, lift_pixel(p, Rgb::new(100, 200, 5)));
}

#[test]
fn circle_fits_bounds() {
    assert!(circle_fits(0, 4_000_000_000));
    assert!(circle_fits(1920, 1080));
    // (65536/2)^2 * 2 = 2^31 > i32::MAX
    assert!(!circle_fits(65536, 65536));
    // 46340^2 + 0 fits, 46341^2 does not
    assert!(circle_fits(92680, 1));
    assert!(!circle_fits(92682, 1));
}
