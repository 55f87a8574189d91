use raster_graphics::vram::VRam;

#[test]
fn new_buffer_is_zeroed() {
    let v = VRam::new(4, 3);
    assert_eq!(v.width, 4);
    assert_eq!(v.height, 3);
    assert_eq!(v.data.len(), 12);
    assert!(v.data.iter().all(|&p| p == 0));
    assert_eq!(v.get_pixel_rgb(3, 2), Some((0, 0, 0)));
}

#[test]
fn empty_buffer() {
    let v = VRam::new(0, 5);
    assert_eq!(v.data.len(), 0);
    assert_eq!(v.get_pixel_rgb(0, 0), None);
}

#[test]
fn set_then_get() {
    let mut v = VRam::new(4, 3);
    v.set_pixel(2, 1, 10, 20, 30);
    assert_eq!(v.get_pixel_rgb(2, 1), Some((10, 20, 30)));
    assert_eq!(v.data[1 * 4 + 2], 0xFF0A141E);
    assert_eq!(v.get_pixel_rgb(1, 2), Some((0, 0, 0)));
}

#[test]
fn out_of_range_access_is_ignored() {
    let mut v = VRam::new(4, 3);
    v.set_pixel(1, 1, 1, 2, 3);
    let before = v.data.clone();
    v.set_pixel(4, 0, 255, 255, 255);
    v.set_pixel(0, 3, 255, 255, 255);
    v.set_pixel(u32::MAX, u32::MAX, 255, 255, 255);
    assert_eq!(v.data, before);
    assert_eq!(v.get_pixel_rgb(4, 0), None);
    assert_eq!(v.get_pixel_rgb(0, 3), None);
    assert_eq!(v.get_pixel_rgb(u32::MAX, 1), None);
}

#[test]
fn load_from_rgba_drops_alpha() {
    let mut v = VRam::new(1, 1);
    let rgba = vec![1u8, 2, 3, 0, 4, 5, 6, 128];
    v.set_from_rgba8(2, 1, &rgba);
    assert_eq!(v.width, 2);
    assert_eq!(v.height, 1);
    assert_eq!(v.data, vec![0xFF010203, 0xFF040506]);
}

#[test]
fn export_rgba_bytes() {
    let mut v = VRam::new(2, 1);
    v.set_pixel(1, 0, 7, 8, 9);
    assert_eq!(v.to_rgba8_bytes(), vec![0, 0, 0, 0, 7, 8, 9, 255]);
}

#[test]
fn rgba_round_trip() {
    let rgba: Vec<u8> = (0..24u8).map(|i| i * 10).collect();
    let mut v = VRam::new(0, 0);
    v.set_from_rgba8(3, 2, &rgba);
    let out = v.to_rgba8_bytes();
    for i in 0..6 {
        assert_eq!(out[4 * i..4 * i + 3], rgba[4 * i..4 * i + 3]);
        assert_eq!(out[4 * i + 3], 255);
    }
}
