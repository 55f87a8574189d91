use raster_graphics::kernel::Kernel;

#[test]
fn new_kernel_is_zero() {
    let k = Kernel::new(3);
    assert_eq!((k.width, k.height, k.divider), (3, 3, 0));
    assert_eq!(k.data, vec![0; 9]);
}

#[test]
fn kernel_get_set_row_major() {
    let mut k = Kernel::new(3);
    k.set(2, 1, 7);
    assert_eq!(k.get(2, 1), 7);
    assert_eq!(k.data[5], 7);
    assert_eq!(k.get(1, 2), 0);
}

#[test]
fn blur_preset() {
    let k = Kernel::create_blur(5);
    assert_eq!(k.divider, 25);
    assert_eq!(k.data, vec![1; 25]);
}

#[test]
fn sharpen_presets() {
    let k = Kernel::create_sharpen();
    assert_eq!(k.data, vec![0, -1, 0, -1, 5, -1, 0, -1, 0]);
    assert_eq!(k.divider, 1);
    let k = Kernel::create_uncanny_sharpen();
    assert_eq!(k.data, vec![-1, -1, -1, -1, 9, -1, -1, -1, -1]);
    assert_eq!(k.divider, 1);
}

#[test]
fn directional_and_identity_presets() {
    let k = Kernel::create_directional_weird();
    assert_eq!(k.data, vec![2, 0, -2, 1, 0, -1, 0, 0, 0]);
    assert_eq!(k.divider, 1);
    let k = Kernel::create_basic();
    assert_eq!(k.data, vec![0, 0, 0, 0, 1, 0, 0, 0, 0]);
    assert_eq!(k.divider, 1);
}
