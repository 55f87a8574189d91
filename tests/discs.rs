use raster_graphics::drawing::draw_point_circle;
use raster_graphics::vram::VRam;

fn marked(v: &VRam) -> Vec<(u32, u32)> {
    let mut out = Vec::new();
    for y in 0..v.height {
        for x in 0..v.width {
            if v.get_pixel_rgb(x, y) == Some((255, 0, 0)) {
                out.push((x, y));
            }
        }
    }
    out
}

#[test]
fn radius_one_is_a_plus() {
    let mut v = VRam::new(5, 5);
    draw_point_circle(&mut v, 2, 2, 1, 255, 0, 0);
    assert_eq!(marked(&v), vec![(2, 1), (1, 2), (2, 2), (3, 2), (2, 3)]);
}

#[test]
fn radius_zero_is_one_pixel() {
    let mut v = VRam::new(3, 3);
    draw_point_circle(&mut v, 1, 1, 0, 255, 0, 0);
    assert_eq!(marked(&v), vec![(1, 1)]);
}

#[test]
fn disc_is_clipped_at_the_border() {
    let mut v = VRam::new(4, 4);
    draw_point_circle(&mut v, -1, 0, 2, 255, 0, 0);
    assert_eq!(marked(&v), vec![(0, 0), (1, 0), (0, 1)]);
    let mut v = VRam::new(4, 4);
    draw_point_circle(&mut v, -100, -100, 5, 255, 0, 0);
    assert!(marked(&v).is_empty());
}

#[test]
fn radius_five_disc_size() {
    let mut v = VRam::new(20, 20);
    draw_point_circle(&mut v, 10, 10, 5, 255, 0, 0);
    // lattice points with dx^2 + dy^2 <= 25
    assert_eq!(marked(&v).len(), 81);
}
