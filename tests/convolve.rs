use raster_graphics::convolution::{convolution, convolution_smoothing, convolve};
use raster_graphics::kernel::Kernel;
use raster_graphics::vram::VRam;

fn filled(w: u32, h: u32, r: u8, g: u8, b: u8) -> VRam {
    let mut v = VRam::new(w, h);
    for y in 0..h {
        for x in 0..w {
            v.set_pixel(x, y, r, g, b);
        }
    }
    v
}

fn reds(v: &VRam) -> Vec<u8> {
    (0..v.height)
        .flat_map(|y| (0..v.width).map(move |x| (x, y)))
        .map(|(x, y)| v.get_pixel_rgb(x, y).unwrap().0)
        .collect()
}

#[test]
fn mid_grey_box_blur_is_unchanged() {
    let v = filled(3, 3, 128, 128, 128);
    let out = convolve(&v, &Kernel::create_blur(3));
    assert_eq!(out.data, v.data);
}

#[test]
fn uniform_colour_is_a_box_blur_fixed_point() {
    let v = filled(5, 4, 12, 200, 77);
    for size in 1..6 {
        let out = convolve(&v, &Kernel::create_blur(size));
        assert_eq!(out.data, v.data);
    }
}

#[test]
fn identity_kernel_keeps_every_pixel() {
    let mut v = VRam::new(4, 3);
    for y in 0..3 {
        for x in 0..4 {
            v.set_pixel(x, y, (x * 60) as u8, (y * 90) as u8, (x * y * 20) as u8);
        }
    }
    let out = convolve(&v, &Kernel::create_basic());
    assert_eq!(out.data, v.data);
}

#[test]
fn box_blur_clamps_to_edges() {
    let mut v = VRam::new(3, 1);
    v.set_pixel(0, 0, 0, 0, 0);
    v.set_pixel(1, 0, 90, 0, 0);
    v.set_pixel(2, 0, 180, 0, 0);
    let out = convolve(&v, &Kernel::create_blur(3));
    // columns read: (0, 0, 90), (0, 90, 180), (90, 180, 180), each row three times
    assert_eq!(reds(&out), vec![30, 90, 150]);
}

#[test]
fn sharpen_clamps_results() {
    let mut v = filled(3, 3, 100, 100, 100);
    v.set_pixel(1, 1, 200, 0, 100);
    let out = convolve(&v, &Kernel::create_sharpen());
    // centre: 5 * 200 - 4 * 100 = 600, clamped; green 5 * 0 - 400 < 0
    assert_eq!(out.get_pixel_rgb(1, 1), Some((255, 0, 100)));
    // left neighbour: 5 * 100 - (100 + 100 + 100 + 200) = 0 for red
    assert_eq!(out.get_pixel_rgb(0, 1), Some((0, 200, 100)));
}

#[test]
fn zero_divider_counts_as_one() {
    let mut k = Kernel::new(1);
    k.set(0, 0, 2);
    let v = filled(2, 2, 50, 100, 200);
    let out = convolve(&v, &k);
    assert_eq!(out.get_pixel_rgb(1, 1), Some((100, 200, 255)));
}

#[test]
fn negative_sums_round_toward_zero() {
    let mut k = Kernel::new(1);
    k.set(0, 0, -3);
    k.divider = -2;
    let v = filled(1, 1, 5, 0, 1);
    let out = convolve(&v, &k);
    // -15 / -2 = 7, 0, -3 / -2 = 1
    assert_eq!(out.get_pixel_rgb(0, 0), Some((7, 0, 1)));
}

#[test]
fn directional_kernel_on_uniform_is_black() {
    let v = filled(4, 4, 80, 80, 80);
    let out = convolve(&v, &Kernel::create_directional_weird());
    assert!(out.data.iter().all(|&p| p == 0xFF000000));
}

#[test]
fn convolve_leaves_source_untouched() {
    let mut v = VRam::new(3, 1);
    v.set_pixel(1, 0, 90, 90, 90);
    let before = v.data.clone();
    let _ = convolve(&v, &Kernel::create_blur(3));
    assert_eq!(v.data, before);
}

#[test]
fn box_blur_exercise() {
    let mut v = VRam::new(3, 1);
    v.set_pixel(0, 0, 0, 0, 0);
    v.set_pixel(1, 0, 90, 0, 0);
    v.set_pixel(2, 0, 180, 0, 0);
    convolution(&mut v);
    assert_eq!(reds(&v), vec![30, 90, 150]);
}

#[test]
fn smoothing_with_zero_threshold_keeps_original() {
    let mut v = VRam::new(3, 1);
    v.set_pixel(1, 0, 90, 10, 20);
    let before = v.clone();
    convolution_smoothing(&mut v, &Kernel::create_blur(3), 0);
    for x in 0..3 {
        assert_eq!(v.get_pixel_rgb(x, 0), before.get_pixel_rgb(x, 0));
    }
}

#[test]
fn smoothing_with_large_threshold_is_full_convolution() {
    let mut v = VRam::new(3, 1);
    v.set_pixel(0, 0, 0, 0, 0);
    v.set_pixel(1, 0, 90, 0, 0);
    v.set_pixel(2, 0, 180, 0, 0);
    let blurred = convolve(&v, &Kernel::create_blur(3));
    convolution_smoothing(&mut v, &Kernel::create_blur(3), 1000);
    assert_eq!(v.data, blurred.data);
}

#[test]
fn smoothing_keeps_edges() {
    let mut v = VRam::new(3, 1);
    v.set_pixel(0, 0, 0, 0, 0);
    v.set_pixel(1, 0, 90, 0, 0);
    v.set_pixel(2, 0, 180, 0, 0);
    // blurred reds are 30, 90, 150: differences 30, 0, 30
    convolution_smoothing(&mut v, &Kernel::create_blur(3), 31);
    assert_eq!(reds(&v), vec![30, 90, 150]);
    let mut v = VRam::new(3, 1);
    v.set_pixel(1, 0, 90, 0, 0);
    v.set_pixel(2, 0, 180, 0, 0);
    convolution_smoothing(&mut v, &Kernel::create_blur(3), 30);
    assert_eq!(reds(&v), vec![0, 90, 180]);
}
