use rasterboy::image::Image;
use rasterboy::math::Color;

fn sample_image() -> Image {
    let mut img = Image::new(2, 2);
    img.data[0] = Color { r: 0, g: 0, b: 0 };
    img.data[1] = Color { r: 255, g: 0, b: 0 };
    img.data[2] = Color { r: 0, g: 255, b: 0 };
    img.data[3] = Color { r: 7, g: 80, b: 255 };
    img
}

#[test]
fn new_image_is_black_and_sized() {
    let img = Image::new(3, 2);
    assert_eq!(img.width, 3);
    assert_eq!(img.height, 2);
    assert_eq!(img.data.len(), 6);
    assert!(img.data.iter().all(|c| *c == Color { r: 0, g: 0, b: 0 }));
}

#[test]
fn ppm_text_has_header_and_one_line_per_pixel() {
    let text = sample_image().to_ppm();
    assert_eq!(text, "P3\n2 2\n255\n0 0 0\n255 0 0\n0 255 0\n7 80 255\n");
}

#[test]
fn ppm_round_trip() {
    let img = sample_image();
    let back = Image::from_ppm(&img.to_ppm()).unwrap();
    assert_eq!(back.width, img.width);
    assert_eq!(back.height, img.height);
    assert_eq!(back.data, img.data);
}

#[test]
fn ppm_empty_image_round_trip() {
    let img = Image::new(0, 5);
    assert_eq!(img.to_ppm(), "P3\n0 5\n255\n");
    let back = Image::from_ppm(&img.to_ppm()).unwrap();
    assert_eq!((back.width, back.height, back.data.len()), (0, 5, 0));
}

#[test]
fn ppm_scales_channels_to_the_maximum() {
    let img = Image::from_ppm("P3 1 1 100 100 50 0").unwrap();
    assert_eq!(img.data[0], Color { r: 255, g: 127, b: 0 });
}

#[test]
fn ppm_missing_pixels_are_black() {
    let img = Image::from_ppm("P3\n2 1\n255\n1 2 3\n").unwrap();
    assert_eq!(img.data, vec![Color { r: 1, g: 2, b: 3 }, Color { r: 0, g: 0, b: 0 }]);
}

#[test]
fn ppm_errors() {
    assert!(Image::from_ppm("").is_err());
    assert!(Image::from_ppm("P6\n1 1\n255\n0 0 0\n").is_err());
    assert!(Image::from_ppm("P3\nx 1\n255\n0 0 0\n").is_err());
    assert!(Image::from_ppm("P3\n1 1\n0\n0 0 0\n").is_err());
    assert!(Image::from_ppm("P3\n1 1\n255\n0 0\n").is_err());
    assert!(Image::from_ppm("P3\n1 1\n255\n0 0 0\n1 1 1\n").is_err());
    assert!(Image::from_ppm("P3\n1 1\n255\n0 256 0\n").is_err());
    assert!(Image::from_ppm("P3\n1 1\n255\n0 a 0\n").is_err());
}
