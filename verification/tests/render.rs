use path_tracer::camera::{ray_color, sky_color, Camera};
use path_tracer::fixed::{Fx, SCALE};
use path_tracer::material::{Lambertian, Material, Metal};
use path_tracer::ppm::ppm_from_pixels;
use path_tracer::ray::Ray;
use path_tracer::sphere::Sphere;
use path_tracer::vec3::Vec3;
use rand::SeedableRng;

fn v(x: i64, y: i64, z: i64) -> Vec3 {
    Vec3::new(Fx::from_int(x), Fx::from_int(y), Fx::from_int(z))
}

fn gray(num: i64, den: i64) -> Vec3 {
    let c = Fx::from_int(num).div(Fx::from_int(den));
    Vec3::new(c, c, c)
}

fn wide_aspect() -> Fx {
    Fx::from_int(16).div(Fx::from_int(9))
}

fn two_sphere_scene() -> Vec<Sphere> {
    let material = Material::Lambertian(Lambertian { albedo: gray(1, 2) });
    let ball = Sphere::new(v(0, 0, -1), Fx::new(SCALE / 2), material);
    let ground = Sphere::new(
        Vec3::new(Fx::from_int(0), Fx::new(-100 * SCALE - SCALE / 2), Fx::from_int(-1)),
        Fx::from_int(100),
        material,
    );
    vec![ball, ground]
}

#[test]
fn bounce_budget_zero_is_black() {
    let camera = Camera::new(wide_aspect(), 40, 1, 0);
    let world = two_sphere_scene();
    let mut rng = rand::rngs::StdRng::seed_from_u64(1);
    let ray = Ray { origin: v(0, 0, 0), direction: v(0, 0, -1) };
    let color = camera.ray_color(&ray, 0, &world, &mut rng);
    assert_eq!((color.x.raw, color.y.raw, color.z.raw), (0, 0, 0));
    let up = Ray { origin: v(0, 0, 0), direction: v(0, 1, 0) };
    let color_up = camera.ray_color(&up, 0, &world, &mut rng);
    assert_eq!((color_up.x.raw, color_up.y.raw, color_up.z.raw), (0, 0, 0));
}

#[test]
fn empty_scene_returns_sky_exactly() {
    let camera = Camera::new(wide_aspect(), 40, 1, 5);
    let world: Vec<Sphere> = vec![];
    let mut rng = rand::rngs::StdRng::seed_from_u64(1);
    // A horizontal direction blends to pure white.
    let level = Ray { origin: v(0, 0, 0), direction: v(0, -1, 0) };
    let color = camera.ray_color(&level, 5, &world, &mut rng);
    assert_eq!((color.x.raw, color.y.raw, color.z.raw), (SCALE, SCALE, SCALE));
    // Any miss equals the sky gradient function.
    let slanted = Ray { origin: v(0, 0, 0), direction: v(1, 1, -2) };
    let shade = camera.ray_color(&slanted, 5, &world, &mut rng);
    assert_eq!(shade, sky_color(&slanted));
    // Straight up blends to pure sky blue (one half, seven tenths, one).
    let up = Ray { origin: v(0, 0, 0), direction: v(0, 1, 0) };
    let blue = camera.ray_color(&up, 5, &world, &mut rng);
    assert_eq!((blue.x.raw, blue.y.raw, blue.z.raw), (32768, 45875, SCALE));
}

#[test]
fn preview_shading_colors_by_normal() {
    let head_on = Ray { origin: v(0, 0, 0), direction: v(0, 0, -1) };
    let color = ray_color(&head_on);
    assert_eq!(
        (color.x.raw, color.y.raw, color.z.raw),
        (SCALE / 2, SCALE / 2, SCALE),
    );
    let up = Ray { origin: v(0, 0, 0), direction: v(0, 1, 0) };
    assert_eq!(ray_color(&up), sky_color(&up));
}

#[test]
fn sky_render_grades_vertically() {
    // No scene objects: a vertical sky gradient. Rays through the top rows
    // point upward, where the blend favors sky blue, so the red channel
    // grows from top to bottom toward white.
    let mut camera = Camera::new(Fx::from_int(2), 10, 1, 5);
    let world: Vec<Sphere> = vec![];
    let mut rng = rand::rngs::StdRng::seed_from_u64(11);
    let pixels = camera.render(&world, &mut rng);
    assert_eq!(pixels.len(), 10 * 5);
    let row_red_avg = |row: usize| -> i64 {
        let mut sum: i64 = 0;
        for i in 0..10 {
            sum += pixels[row * 10 + i].r as i64;
        }
        sum / 10
    };
    assert!(row_red_avg(0) < row_red_avg(4), "top {} bottom {}", row_red_avg(0), row_red_avg(4));
    // The blue channel is full everywhere in the gradient.
    for p in &pixels {
        assert_eq!(p.b, 255);
    }
}

#[test]
fn image_height_rounds_to_nearest() {
    // 7 / 2 = 3.5 rounds to 4, where truncation would give 3.
    let mut camera = Camera::new(Fx::from_int(2), 7, 1, 1);
    let world: Vec<Sphere> = vec![];
    let mut rng = rand::rngs::StdRng::seed_from_u64(2);
    let pixels = camera.render(&world, &mut rng);
    assert_eq!(camera.image_height, 4);
    assert_eq!(pixels.len(), 7 * 4);
}

#[test]
fn end_to_end_pixel_map() {
    // A half-unit sphere over a large ground sphere, 400x225, one sample,
    // depth one: a complete pixel map with the exact header and one triple
    // per pixel, every channel a byte.
    let mut camera = Camera::new(wide_aspect(), 400, 1, 1);
    let world = two_sphere_scene();
    let mut rng = rand::rngs::StdRng::seed_from_u64(5);
    let pixels = camera.render(&world, &mut rng);
    assert_eq!(camera.image_height, 225);
    assert_eq!(pixels.len(), 400 * 225);

    let ppm = ppm_from_pixels(400, 225, &pixels);
    let expected_header = b"P3\n400 225\n255\n";
    assert_eq!(&ppm[..expected_header.len()], expected_header);
    let newlines = ppm.iter().filter(|&&b| b == b'\n').count();
    assert_eq!(newlines, 3 + 400 * 225);

    // Each pixel line is three space-separated decimal values in [0, 255].
    let text = String::from_utf8(ppm).expect("ascii");
    for line in text.lines().skip(3) {
        let mut channels = 0;
        for word in line.split(' ') {
            let value: u32 = word.parse().expect("a decimal channel");
            assert!(value <= 255);
            channels += 1;
        }
        assert_eq!(channels, 3);
    }
}

#[test]
fn seeded_renders_are_identical() {
    let world: Vec<Sphere> = vec![
        Sphere::new(
            Vec3::new(Fx::from_int(0), Fx::new(-100 * SCALE - SCALE / 2), Fx::from_int(-1)),
            Fx::from_int(100),
            Material::Lambertian(Lambertian {
                albedo: Vec3::new(Fx::new(52428), Fx::new(52428), Fx::new(0)),
            }),
        ),
        Sphere::new(
            v(0, 0, -1),
            Fx::new(SCALE / 2),
            Material::Lambertian(Lambertian {
                albedo: Vec3::new(Fx::new(6553), Fx::new(13107), Fx::new(32768)),
            }),
        ),
        Sphere::new(
            v(-1, 0, -1),
            Fx::new(SCALE / 2),
            Material::Metal(Metal {
                albedo: gray(4, 5),
                fuzz: Fx::from_int(3).div(Fx::from_int(10)),
            }),
        ),
        Sphere::new(
            v(1, 0, -1),
            Fx::new(SCALE / 2),
            Material::Metal(Metal { albedo: gray(4, 5), fuzz: Fx::one() }),
        ),
    ];

    let render_with_seed = |seed: u64| -> Vec<u8> {
        let mut camera = Camera::new(wide_aspect(), 40, 2, 4);
        let mut rng = rand::rngs::StdRng::seed_from_u64(seed);
        let pixels = camera.render(&world, &mut rng);
        // 40 / (16/9) = 22.5 rounds up to 23 rows.
        assert_eq!(camera.image_height, 23);
        assert_eq!(pixels.len(), 40 * 23);
        ppm_from_pixels(40, 23, &pixels)
    };

    let first = render_with_seed(42);
    let second = render_with_seed(42);
    assert_eq!(first, second, "a fixed seed must reproduce the image byte for byte");
}
