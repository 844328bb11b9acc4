use racoon_camera::color::Rgb;
use racoon_camera::effects::{EffectsActivationConfig, EffectsConfig};
use racoon_camera::rect::DetectionRect;

#[test]
fn effects_config_default_is_off_and_black() {
    let c = EffectsConfig::default();
    assert_eq!(c.color(), Rgb::black());
    assert!(!c.is_zoom());
    assert!(!c.is_disco());
    assert!(!c.is_racoon());
}

#[test]
fn effects_config_channels() {
    let mut c = EffectsConfig::default();
    c.set_color(Rgb::new(9, 9, 9));
    c.set_red(1);
    c.set_green(2);
    c.set_blue(3);
    assert_eq!(c.color(), Rgb::new(1, 2, 3));
    c.set_green(77);
    assert_eq!(c.color(), Rgb::new(1, 77, 3));
}

#[test]
fn effects_config_update_activations() {
    let mut c = EffectsConfig::default();
    c.set_color(Rgb::new(4, 5, 6));
    c.update_activations(EffectsActivationConfig::new(true, false, true));
    assert!(c.is_zoom());
    assert!(!c.is_racoon());
    assert!(c.is_disco());
    assert_eq!(c.color(), Rgb::new(4, 5, 6));
    c.update_activations(EffectsActivationConfig::default());
    assert!(!c.is_zoom() && !c.is_racoon() && !c.is_disco());
}

#[test]
fn detection_rect_chaining_and_default() {
    let mut r: DetectionRect<u32> = DetectionRect::default();
    assert!(r.is_default());
    r.set_min(1, 2).set_max(3, 4);
    assert_eq!((r.x_min, r.y_min, r.x_max, r.y_max), (1, 2, 3, 4));
    assert!(!r.is_default());
    r.set_min(0, 0).set_max(0, 0);
    assert!(r.is_default());
}

#[test]
fn detection_rect_float_coordinates() {
    let mut r: DetectionRect<f32> = DetectionRect::default();
    assert!(r.is_default());
    r.set_max(0.5, 0.25);
    assert!(!r.is_default());
    assert_eq!(r.x_max, 0.5);
}
