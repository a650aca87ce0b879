use ababa_config::ppm::{Pixel, PpmP3};
use ababa_config::{AbabaValue, FromAbabaValue};

#[test]
fn pixel_as_hex() {
    assert_eq!(Pixel::new(255, 0, 10).as_hex(), "[ff, 0, a]");
    assert_eq!(Pixel::new(16, 1, 171).as_hex(), "[10, 1, ab]");
}

#[test]
fn pixel_as_rgb() {
    assert_eq!(u32::from(Pixel::new(0x12, 0x34, 0x56)), 0x123456);
    assert_eq!(Pixel::white().to_rgb(), 0xffffff);
    assert_eq!(Pixel::default(), Pixel::black());
}

#[test]
fn pixel_from_value() {
    let p = Pixel::from_value(AbabaValue::from_text("(255, 128, 0)").unwrap()).unwrap();
    assert_eq!(p, Pixel::new(255, 128, 0));
    assert!(Pixel::from_value(AbabaValue::from_text("(256, 0, 0)").unwrap()).is_err());
}

#[test]
fn image_pixels_and_text() {
    let mut img = PpmP3::new(2, 2);
    *img.get_mut_pixel(1, 0).unwrap() = Pixel::new(1, 2, 3);
    *img.get_mut_pixel(0, 1).unwrap() = Pixel::white();
    assert!(img.get_mut_pixel(0, 2).is_none());
    assert_eq!(img.to_text(), "P3\n2 2\n255\n0 0 0\n1 2 3\n255 255 255\n0 0 0\n");
}
