use racoon_camera::color::{Rgb, Rgba};
use racoon_camera::detection::{box_replaces, DetectionClock, PixelBox};
use racoon_camera::disco::random_disco_color;
use racoon_camera::frame::Frame;
use racoon_camera::state::{Detection, ViewState};
use std::sync::mpsc;

fn uniform(width: u32, height: u32, p: [u8; 4]) -> Frame {
    let mut data = Vec::new();
    for _ in 0..(width * height) {
        data.extend_from_slice(&p);
    }
    Frame::new(width, height, data).unwrap()
}

#[test]
fn new_state_defaults() {
    let s = ViewState::new();
    assert_eq!(s.rgb(), Rgb::black());
    assert_eq!(s.disco_rgb(), Rgb::black());
    assert!(!s.is_racoon());
    assert!(!s.is_disco());
    assert!(!s.is_zoom());
    assert_eq!(s.timeout(), 300);
    assert_eq!(s.previous_box(), PixelBox::zero());
    assert_eq!(s.frame_count(), 0);
}

#[test]
fn effect_color_without_disco_ignores_received() {
    let mut s = ViewState::new();
    s.set_rgb(1, 2, 3);
    assert_eq!(s.effect_color(Some(Rgb::new(9, 9, 9))), Rgb::new(1, 2, 3));
    assert_eq!(s.disco_rgb(), Rgb::black());
}

#[test]
fn effect_color_with_disco_takes_received_and_keeps_it() {
    let mut s = ViewState::new();
    s.set_disco(true);
    assert_eq!(s.effect_color(None), Rgb::black());
    assert_eq!(s.effect_color(Some(Rgb::new(40, 50, 60))), Rgb::new(40, 50, 60));
    assert_eq!(s.effect_color(None), Rgb::new(40, 50, 60));
    assert_eq!(s.disco_rgb(), Rgb::new(40, 50, 60));
}

#[test]
fn color_effected_pixel_reads_channel_in_disco() {
    let (tx, rx) = mpsc::channel();
    let mut s = ViewState::new();
    s.set_disco(true);
    tx.send(Rgb::new(100, 0, 200)).unwrap();
    let p = s.color_effected_pixel(Rgba::new(50, 50, 50, 7), &rx);
    assert_eq!(p, Rgba::new(100, 50, 200, 7));
    // nothing more waiting: the colour is kept
    let q = s.color_effected_pixel(Rgba::new(0, 0, 0, 1), &rx);
    assert_eq!(q, Rgba::new(100, 0, 200, 1));
}

#[test]
fn color_effected_pixel_without_disco_leaves_channel() {
    let (tx, rx) = mpsc::channel();
    let mut s = ViewState::new();
    s.set_rgb(20, 20, 20);
    tx.send(Rgb::new(100, 100, 100)).unwrap();
    let p = s.color_effected_pixel(Rgba::new(10, 30, 10, 5), &rx);
    assert_eq!(p, Rgba::new(20, 30, 20, 5));
    assert_eq!(rx.try_recv().unwrap(), Rgb::new(100, 100, 100));
}

#[test]
fn color_effected_image_with_slider_color() {
    let (_tx, rx) = mpsc::channel::<Rgb>();
    let mut s = ViewState::new();
    s.set_rgb(0, 128, 0);
    let out = s.color_effected_image(uniform(2, 3, [10, 20, 30, 40]), &rx);
    assert_eq!(out.as_bytes(), uniform(2, 3, [10, 128, 30, 40]).as_bytes());
}

#[test]
fn disco_color_arrives_mid_frame() {
    let (tx, rx) = mpsc::channel();
    let mut s = ViewState::new();
    s.set_disco(true);
    tx.send(Rgb::new(90, 90, 90)).unwrap();
    let out = s.color_effected_image(uniform(2, 2, [0, 0, 0, 255]), &rx);
    assert_eq!(out.as_bytes(), uniform(2, 2, [90, 90, 90, 255]).as_bytes());
    assert_eq!(s.disco_rgb(), Rgb::new(90, 90, 90));
}

#[test]
fn racoon_style_masks_and_lifts() {
    let (_tx, rx) = mpsc::channel::<Rgb>();
    let mut s = ViewState::new();
    s.set_racoon(true);
    s.set_rgb(60, 0, 0);
    let out = s.render_effects(uniform(4, 4, [10, 20, 30, 40]), &rx);
    assert_eq!(out.get_pixel(0, 0), Rgba::new(0, 0, 0, 255));
    assert_eq!(out.get_pixel(2, 2), Rgba::new(60, 20, 30, 40));
}

#[test]
fn render_effects_without_racoon_lifts_everything() {
    let (_tx, rx) = mpsc::channel::<Rgb>();
    let mut s = ViewState::new();
    s.set_rgb(0, 0, 99);
    let out = s.render_effects(uniform(4, 4, [10, 20, 30, 40]), &rx);
    assert_eq!(out.as_bytes(), uniform(4, 4, [10, 20, 99, 40]).as_bytes());
}

#[test]
fn detection_every_fifth_frame() {
    let mut s = ViewState::new();
    let mut due = Vec::new();
    for _ in 0..11 {
        due.push(s.detection_due());
        s.advance_frame();
    }
    assert_eq!(due, vec![true, false, false, false, false, true, false, false, false, false, true]);
    assert_eq!(s.frame_count(), 11);
}

#[test]
fn box_replaces_rules() {
    let prev = PixelBox::new(100, 100, 40, 40);
    // no box yet: always replaced
    assert!(box_replaces(PixelBox::zero(), PixelBox::new(1, 1, 1, 1)));
    // small move, same size: kept
    assert!(!box_replaces(prev, PixelBox::new(105, 95, 40, 40)));
    // moved by more than a quarter of the width
    assert!(box_replaces(prev, PixelBox::new(111, 100, 40, 40)));
    // moved by exactly a quarter: kept
    assert!(!box_replaces(prev, PixelBox::new(110, 90, 40, 40)));
    // moved up by more than a quarter of the height
    assert!(box_replaces(prev, PixelBox::new(100, 89, 40, 40)));
    // shrank in both directions
    assert!(box_replaces(prev, PixelBox::new(100, 100, 39, 39)));
    // grew in both directions
    assert!(box_replaces(prev, PixelBox::new(100, 100, 41, 41)));
    // grew in one, shrank in the other: kept
    assert!(!box_replaces(prev, PixelBox::new(100, 100, 41, 39)));
    // a box never replaces itself
    assert!(!box_replaces(prev, prev));
}

#[test]
fn zoomed_face_follows_first_face() {
    let mut s = ViewState::new();
    let f = uniform(4, 4, [5, 5, 5, 255]);
    let out = s.zoomed_face(f, Detection::Found(PixelBox::new(0, 0, 4, 4)));
    assert_eq!(s.previous_box(), PixelBox::new(0, 0, 4, 4));
    assert_eq!(out.as_bytes(), uniform(4, 4, [5, 5, 5, 255]).as_bytes());
}

#[test]
fn zoomed_face_failed_detection_passes_frame() {
    let mut s = ViewState::new();
    let f = uniform(2, 2, [1, 2, 3, 4]);
    let out = s.zoomed_face(f, Detection::Failed);
    assert_eq!(out.as_bytes(), uniform(2, 2, [1, 2, 3, 4]).as_bytes());
    assert_eq!(s.previous_box(), PixelBox::zero());
}

#[test]
fn zoomed_face_before_any_face_is_transparent() {
    let mut s = ViewState::new();
    let out = s.zoomed_face(uniform(2, 2, [1, 2, 3, 4]), Detection::Skipped);
    assert_eq!(out.as_bytes(), &vec![0u8; 16]);
}

#[test]
fn zoomed_face_keeps_box_on_small_move() {
    let mut s = ViewState::new();
    let _ = s.zoomed_face(uniform(8, 8, [1, 1, 1, 255]), Detection::Found(PixelBox::new(0, 0, 8, 8)));
    let out = s.zoomed_face(uniform(8, 8, [1, 1, 1, 255]), Detection::Found(PixelBox::new(1, 1, 8, 8)));
    assert_eq!(s.previous_box(), PixelBox::new(0, 0, 8, 8));
    assert_eq!(out.as_bytes(), uniform(8, 8, [1, 1, 1, 255]).as_bytes());
}

#[test]
fn setters_change_one_field() {
    let mut s = ViewState::new();
    s.set_zoom(true);
    s.set_timeout(42);
    assert!(s.is_zoom());
    assert_eq!(s.timeout(), 42);
    assert!(!s.is_racoon());
    assert!(!s.is_disco());
}

#[test]
fn random_disco_colors_in_range() {
    for _ in 0..200 {
        let c = random_disco_color();
        assert!((10..=200).contains(&c.r));
        assert!((10..=200).contains(&c.g));
        assert!((10..=200).contains(&c.b));
    }
}

#[test]
fn disco_colour_left_is_last_pixels_colour() {
    let (tx, rx) = mpsc::channel();
    let mut s = ViewState::new();
    s.set_disco(true);
    tx.send(Rgb::new(10, 20, 30)).unwrap();
    tx.send(Rgb::new(40, 50, 60)).unwrap();
    let out = s.color_effected_image(uniform(1, 2, [0, 0, 0, 255]), &rx);
    assert_eq!(s.disco_rgb(), Rgb::new(40, 50, 60));
    assert_eq!(&out.as_bytes()[4..8], &[40, 50, 60, 255]);
    assert_eq!(&out.as_bytes()[0..4], &[10, 20, 30, 255]);
}

#[test]
fn racoon_without_inside_pixels_keeps_disco_colour() {
    let (tx, rx) = mpsc::channel();
    let mut s = ViewState::new();
    s.set_disco(true);
    s.set_racoon(true);
    tx.send(Rgb::new(10, 20, 30)).unwrap();
    // height 1: radius 0, no pixel inside the circle, the channel is not read
    let out = s.render_effects(uniform(3, 1, [1, 1, 1, 1]), &rx);
    assert_eq!(s.disco_rgb(), Rgb::black());
    assert_eq!(out.as_bytes(), uniform(3, 1, [0, 0, 0, 255]).as_bytes());
    assert_eq!(rx.try_recv().unwrap(), Rgb::new(10, 20, 30));
}

#[test]
fn detection_clock_every_third_frame() {
    let mut c = DetectionClock::new();
    assert!(!c.next_frame(false));
    assert!(!c.next_frame(false));
    assert!(c.next_frame(false));
    c.detection_ran();
    assert_eq!(c.frame_count(), 0);
    assert!(c.next_frame(true));
    assert_eq!(c.frame_count(), 1);
    assert!(!c.next_frame(false));
}
