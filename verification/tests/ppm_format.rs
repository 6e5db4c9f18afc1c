use path_tracer::ppm::ppm_from_pixels;
use path_tracer::vec3::Pixel;

#[test]
fn ppm_exact_bytes() {
    let pixels = vec![Pixel { r: 0, g: 128, b: 255 }, Pixel { r: 1, g: 2, b: 3 }];
    let ppm = ppm_from_pixels(2, 1, &pixels);
    assert_eq!(ppm, b"P3\n2 1\n255\n0 128 255\n1 2 3\n".to_vec());
}

#[test]
fn ppm_empty_grid_is_header_only() {
    let pixels: Vec<Pixel> = vec![];
    let ppm = ppm_from_pixels(0, 0, &pixels);
    assert_eq!(ppm, b"P3\n0 0\n255\n".to_vec());
}

#[test]
fn ppm_multi_digit_dimensions() {
    let pixels = vec![Pixel { r: 10, g: 100, b: 200 }; 6];
    let ppm = ppm_from_pixels(3, 2, &pixels);
    let expected = b"P3\n3 2\n255\n10 100 200\n10 100 200\n10 100 200\n10 100 200\n10 100 200\n10 100 200\n".to_vec();
    assert_eq!(ppm, expected);
}
