use fluid_sim::utils::Timer;
use fluid_sim::visualization::Image;

#[test]
fn new_image_is_blank() {
    let image = Image::new(2, 3, 2);
    assert_eq!(image.size(), (4, 6));
    assert_eq!(image.data().len(), 4 * 4 * 6);
    assert!(image.data().iter().all(|&b| b == 0));
}

#[test]
fn new_image_scales_both_sides_by_the_resolution() {
    assert_eq!(Image::new(5, 7, 1).size(), (5, 7));
    assert_eq!(Image::new(5, 7, 3).size(), (15, 21));
    assert_eq!(Image::new(0, 7, 3).size(), (0, 21));
    assert_eq!(Image::new(5, 7, 0).size(), (0, 0));
    assert_eq!(Image::new(5, 7, 0).data().len(), 0);
}

#[test]
fn paint_colors_one_pixel_at_resolution_one() {
    let mut image = Image::new(3, 2, 1);
    image.paint(1, 1, [10, 20, 30, 255]);
    let mut expected = vec![0_u8; 4 * 3 * 2];
    // pixel (1, 1) of a row of three stands at offset 1 + 1 * 3 = 4
    expected[16..20].copy_from_slice(&[10, 20, 30, 255]);
    assert_eq!(image.data(), &expected);
}

#[test]
fn paint_colors_a_whole_block() {
    let mut image = Image::new(2, 2, 2);
    image.paint(1, 0, [1, 2, 3, 4]);
    let width = 4;
    for y in 0..4 {
        for x in 0..4 {
            let at = 4 * (x + y * width);
            let pixel = &image.data()[at..at + 4];
            if (2..4).contains(&x) && (0..2).contains(&y) {
                assert_eq!(pixel, &[1, 2, 3, 4], "pixel ({x}, {y})");
            } else {
                assert_eq!(pixel, &[0, 0, 0, 0], "pixel ({x}, {y})");
            }
        }
    }
}

#[test]
fn paint_keeps_what_other_blocks_hold() {
    let mut image = Image::new(2, 1, 1);
    image.paint(0, 0, [9, 9, 9, 9]);
    image.paint(1, 0, [7, 7, 7, 7]);
    assert_eq!(image.data(), &vec![9, 9, 9, 9, 7, 7, 7, 7]);
    image.paint(0, 0, [1, 1, 1, 1]);
    assert_eq!(image.data(), &vec![1, 1, 1, 1, 7, 7, 7, 7]);
}

#[test]
fn paint_the_last_block_reaches_the_last_byte() {
    let mut image = Image::new(3, 2, 2);
    image.paint(2, 1, [5, 6, 7, 8]);
    let data = image.data();
    assert_eq!(&data[data.len() - 4..], &[5, 6, 7, 8]);
    assert_eq!(data.iter().filter(|&&b| b != 0).count(), 4 * 4);
}

#[test]
fn paint_at_resolution_zero_does_nothing() {
    let mut image = Image::new(3, 2, 0);
    image.paint(1, 1, [5, 6, 7, 8]);
    assert_eq!(image.size(), (0, 0));
    assert!(image.data().is_empty());
}

#[test]
fn size_is_width_then_height() {
    let image = Image::new(1, 4, 5);
    let (width, height) = image.size();
    assert_eq!(width, 5);
    assert_eq!(height, 20);
}

#[test]
fn timer_keeps_its_name() {
    let timer = Timer::new("Fluid::draw");
    assert_eq!(timer.name(), "Fluid::draw");
    assert_eq!(Timer::new("").name(), "");
}
