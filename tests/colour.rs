use raster_graphics::color::{hsl_to_rgb, rgb_to_hsl, RGB};
use raster_graphics::fraction::Fraction;

fn value(f: Fraction) -> f64 {
    f.num as f64 / f.den as f64
}

#[test]
fn pure_red_to_hsl() {
    let hsl = rgb_to_hsl(255, 0, 0);
    assert!(value(hsl.hue).abs() < 1e-9);
    assert_eq!(hsl.saturation.num, hsl.saturation.den as i64);
    assert_eq!(2 * hsl.lightness.num, hsl.lightness.den as i64);
}

#[test]
fn grey_has_no_hue_or_saturation() {
    let hsl = rgb_to_hsl(128, 128, 128);
    assert_eq!(hsl.hue.num, 0);
    assert_eq!(hsl.saturation.num, 0);
    assert_eq!(hsl.lightness.num, 256);
    assert_eq!(hsl.lightness.den, 510);
}

#[test]
fn hue_follows_the_largest_channel() {
    assert!((value(rgb_to_hsl(0, 255, 0).hue) - 120.0).abs() < 1e-9);
    assert!((value(rgb_to_hsl(0, 0, 255).hue) - 240.0).abs() < 1e-9);
    assert!((value(rgb_to_hsl(255, 0, 255).hue) - 300.0).abs() < 1e-9);
    assert!((value(rgb_to_hsl(255, 255, 0).hue) - 60.0).abs() < 1e-9);
}

#[test]
fn saturation_formula() {
    // max 200, min 100: lightness 300/510, saturation 100 / (510 - 300)
    let hsl = rgb_to_hsl(200, 150, 100);
    assert!((value(hsl.saturation) - 100.0 / 210.0).abs() < 1e-12);
    assert!((value(hsl.lightness) - 300.0 / 510.0).abs() < 1e-12);
    assert!((value(hsl.hue) - 30.0).abs() < 1e-9);
}

#[test]
fn primary_colours_from_hsl() {
    let half = Fraction::new(1, 2);
    let one = Fraction::whole(1);
    assert_eq!(hsl_to_rgb(Fraction::whole(0), one, half), RGB { r: 255, g: 0, b: 0 });
    assert_eq!(hsl_to_rgb(Fraction::whole(120), one, half), RGB { r: 0, g: 255, b: 0 });
    assert_eq!(hsl_to_rgb(Fraction::whole(240), one, half), RGB { r: 0, g: 0, b: 255 });
}

#[test]
fn hue_is_normalised() {
    let half = Fraction::new(1, 2);
    let one = Fraction::whole(1);
    assert_eq!(hsl_to_rgb(Fraction::whole(-120), one, half), RGB { r: 0, g: 0, b: 255 });
    assert_eq!(hsl_to_rgb(Fraction::whole(480), one, half), RGB { r: 0, g: 255, b: 0 });
    assert_eq!(hsl_to_rgb(Fraction::whole(720), one, half), RGB { r: 255, g: 0, b: 0 });
}

#[test]
fn saturation_and_lightness_are_clamped() {
    let half = Fraction::new(1, 2);
    assert_eq!(
        hsl_to_rgb(Fraction::whole(0), Fraction::whole(3), half),
        hsl_to_rgb(Fraction::whole(0), Fraction::whole(1), half)
    );
    assert_eq!(
        hsl_to_rgb(Fraction::whole(0), Fraction::whole(-2), half),
        hsl_to_rgb(Fraction::whole(0), Fraction::whole(0), half)
    );
    assert_eq!(
        hsl_to_rgb(Fraction::whole(0), Fraction::whole(1), Fraction::whole(2)),
        RGB { r: 255, g: 255, b: 255 }
    );
    assert_eq!(
        hsl_to_rgb(Fraction::whole(0), Fraction::whole(1), Fraction::whole(-1)),
        RGB { r: 0, g: 0, b: 0 }
    );
}

#[test]
fn grey_lightness_rounds_to_nearest() {
    // 0.25 * 255 = 63.75
    let c = hsl_to_rgb(Fraction::whole(0), Fraction::whole(0), Fraction::new(1, 4));
    assert_eq!(c, RGB { r: 64, g: 64, b: 64 });
    // 0.5 * 255 = 127.5 rounds away from zero
    let c = hsl_to_rgb(Fraction::whole(0), Fraction::whole(0), Fraction::new(1, 2));
    assert_eq!(c, RGB { r: 128, g: 128, b: 128 });
}

#[test]
fn round_trip_keeps_colours() {
    for r in (0..=255u32).step_by(5) {
        for g in (0..=255u32).step_by(5) {
            for b in (0..=255u32).step_by(5) {
                let (r, g, b) = (r as u8, g as u8, b as u8);
                let hsl = rgb_to_hsl(r, g, b);
                let back = hsl_to_rgb(hsl.hue, hsl.saturation, hsl.lightness);
                assert_eq!(back, RGB { r, g, b });
            }
        }
    }
}

#[test]
fn round_trip_near_ties() {
    for &(r, g, b) in &[(1u8, 0u8, 0u8), (255, 254, 0), (0, 1, 255), (254, 255, 255), (3, 2, 1), (100, 101, 100)] {
        let hsl = rgb_to_hsl(r, g, b);
        assert_eq!(hsl_to_rgb(hsl.hue, hsl.saturation, hsl.lightness), RGB { r, g, b });
    }
}
