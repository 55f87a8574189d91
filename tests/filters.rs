use raster_graphics::color::{hsl_to_rgb, rgb_to_hsl};
use raster_graphics::filters::{
    exercise_one, grayscale, hue_shift, red_eye_removal, render_edits, saturate_image,
};
use raster_graphics::fraction::Fraction;
use raster_graphics::vram::VRam;

fn value(f: Fraction) -> f64 {
    f.num as f64 / f.den as f64
}

fn one_pixel(r: u8, g: u8, b: u8) -> VRam {
    let mut v = VRam::new(1, 1);
    v.set_pixel(0, 0, r, g, b);
    v
}

#[test]
fn grayscale_uses_luma_weights() {
    let mut v = one_pixel(255, 0, 0);
    grayscale(&mut v);
    // 0.299 * 255 = 76.245
    assert_eq!(v.get_pixel_rgb(0, 0), Some((76, 76, 76)));
    let mut v = one_pixel(10, 200, 30);
    grayscale(&mut v);
    // 2.99 + 117.4 + 3.42 = 123.81
    assert_eq!(v.get_pixel_rgb(0, 0), Some((123, 123, 123)));
}

#[test]
fn grayscale_twice_equals_once() {
    let mut v = VRam::new(8, 8);
    for y in 0..8 {
        for x in 0..8 {
            v.set_pixel(x, y, (x * 31) as u8, (y * 29) as u8, ((x + y) * 17) as u8);
        }
    }
    grayscale(&mut v);
    let once = v.data.clone();
    grayscale(&mut v);
    assert_eq!(v.data, once);
}

#[test]
fn grey_stays_grey() {
    for g in [0u8, 1, 127, 128, 254, 255] {
        let mut v = one_pixel(g, g, g);
        grayscale(&mut v);
        assert_eq!(v.get_pixel_rgb(0, 0), Some((g, g, g)));
    }
}

#[test]
fn saturation_zero_gives_grey() {
    let mut v = one_pixel(200, 100, 50);
    saturate_image(&mut v, Fraction::whole(0));
    // lightness (200 + 50) / 510, times 255 = 125
    assert_eq!(v.get_pixel_rgb(0, 0), Some((125, 125, 125)));
}

#[test]
fn saturation_is_set_not_scaled() {
    let mut v = one_pixel(150, 100, 100);
    saturate_image(&mut v, Fraction::whole(1));
    let (r, g, b) = v.get_pixel_rgb(0, 0).unwrap();
    let hsl = rgb_to_hsl(r, g, b);
    assert_eq!(hsl.saturation.num, hsl.saturation.den as i64);
    // lightness is kept: (150 + 100) / 510
    assert_eq!((r, g, b), (250, 0, 0));
}

#[test]
fn hue_shift_by_a_third_turn() {
    let mut v = one_pixel(255, 0, 0);
    hue_shift(&mut v, 120);
    assert_eq!(v.get_pixel_rgb(0, 0), Some((0, 255, 0)));
    hue_shift(&mut v, -240);
    assert_eq!(v.get_pixel_rgb(0, 0), Some((0, 0, 255)));
}

#[test]
fn hue_shift_by_full_turn_is_identity() {
    let mut v = one_pixel(37, 142, 211);
    hue_shift(&mut v, 360);
    assert_eq!(v.get_pixel_rgb(0, 0), Some((37, 142, 211)));
}

#[test]
fn red_eye_pixel_is_corrected() {
    let c = hsl_to_rgb(Fraction::whole(10), Fraction::new(8, 10), Fraction::new(4, 10));
    let mut v = one_pixel(c.r, c.g, c.b);
    red_eye_removal(&mut v);
    let (r, g, b) = v.get_pixel_rgb(0, 0).unwrap();
    assert_ne!((r, g, b), (c.r, c.g, c.b));
    let hsl = rgb_to_hsl(r, g, b);
    assert!((value(hsl.saturation) - 0.12).abs() < 0.01);
    assert!((value(hsl.lightness) - 0.24).abs() < 0.01);
    assert!(value(hsl.hue) > 10.0 && value(hsl.hue) <= 30.0);
}

#[test]
fn red_eye_exact_result() {
    // (184, 48, 20): hue 10.24, saturation 164/204, lightness 0.4
    let mut v = one_pixel(184, 48, 20);
    red_eye_removal(&mut v);
    assert_eq!(v.get_pixel_rgb(0, 0), Some((69, 59, 54)));
}

#[test]
fn wrapped_red_hue_is_pulled_the_short_way() {
    // hue 350: moves 60% of 40 degrees forward, to 14
    let c = hsl_to_rgb(Fraction::whole(350), Fraction::new(9, 10), Fraction::new(4, 10));
    let mut v = one_pixel(c.r, c.g, c.b);
    red_eye_removal(&mut v);
    let (r, g, b) = v.get_pixel_rgb(0, 0).unwrap();
    let h = value(rgb_to_hsl(r, g, b).hue);
    assert!(h > 5.0 && h < 25.0);
}

#[test]
fn low_saturation_pixel_is_untouched() {
    let c = hsl_to_rgb(Fraction::whole(10), Fraction::new(1, 10), Fraction::new(4, 10));
    let mut v = one_pixel(c.r, c.g, c.b);
    let before = v.data.clone();
    red_eye_removal(&mut v);
    assert_eq!(v.data, before);
}

#[test]
fn non_red_or_dark_pixels_are_untouched() {
    for (r, g, b) in [(0u8, 200u8, 0u8), (10, 2, 2), (255, 200, 200), (0, 0, 0)] {
        let mut v = one_pixel(r, g, b);
        let before = v.data.clone();
        red_eye_removal(&mut v);
        assert_eq!(v.data, before);
    }
}

#[test]
fn gradient_exercise() {
    let mut v = VRam::new(300, 2);
    exercise_one(&mut v);
    assert_eq!(v.get_pixel_rgb(0, 0), Some((0, 0, 128)));
    assert_eq!(v.get_pixel_rgb(5, 1), Some((5, 1, 128)));
    assert_eq!(v.get_pixel_rgb(260, 1), Some((4, 1, 128)));
}

#[test]
fn render_edits_starts_from_the_source() {
    let source = one_pixel(255, 0, 0);
    let once = render_edits(&source, Fraction::whole(0), 120);
    let again = render_edits(&source, Fraction::whole(0), 120);
    assert_eq!(once.data, again.data);
    assert_eq!(once.get_pixel_rgb(0, 0), Some((0, 255, 0)));
    assert_eq!(source.get_pixel_rgb(0, 0), Some((255, 0, 0)));
    let grey = render_edits(&source, Fraction::new(0, 1), 0);
    assert_eq!(grey.data, source.data);
    let faded = render_edits(&source, Fraction::new(1, 2), 0);
    assert_eq!(faded.get_pixel_rgb(0, 0), Some((191, 64, 64)));
}
