//! The camera: viewport geometry, per-pixel jittered sampling, recursive
//! color evaluation, and the render loop.

use crate::fixed::{fx_add, fx_from_int, fx_div, sdiv, Fx, MAX_RAW, MINUS_ONE_RAW, SCALE};
use crate::hittable::{scene_hit_spec, Hittable};
use crate::interval::Interval;
use crate::material::{scatter_possible, Material, MaterialHit};
use crate::ray::Ray;
use crate::rng::rand_i64_inclusive;
use crate::sphere::{hit_sphere, hit_sphere_spec, Sphere};
use crate::vec3::{attenuate_spec, v3_zero, Pixel, Vec3, TWO_RAW};
use vstd::arithmetic::div_mod::lemma_fundamental_div_mod_converse_div;
use vstd::arithmetic::div_mod::lemma_fundamental_div_mod_converse_mod;
use vstd::prelude::*;

verus! {

/// Lower bound of the parameter interval for scene hits, a little above
/// zero so a scattered ray cannot re-hit its own origin ("shadow acne").
pub const T_MIN_RAW: i64 = 65;

/// The value one half in raw units.
pub const HALF_RAW: i64 = 32768;

/// Green channel of the sky's blue endpoint (seven tenths in raw units).
pub const SKY_GREEN_RAW: i64 = 45875;

/// The fixed background: blend white into sky blue by the vertical
/// component of the unit direction, remapped from `[-1, 1]` to `[0, 1]`.
pub open spec fn sky_color_spec(ray: Ray) -> Vec3 {
    let unit_direction = ray.direction.normalized_spec();
    let a = unit_direction.y.add_spec(Fx { raw: SCALE }).div_spec(Fx { raw: TWO_RAW });
    let white = Vec3 { x: Fx { raw: SCALE }, y: Fx { raw: SCALE }, z: Fx { raw: SCALE } };
    let blue = Vec3 { x: Fx { raw: HALF_RAW }, y: Fx { raw: SKY_GREEN_RAW }, z: Fx { raw: SCALE } };
    white.mul_spec(Fx { raw: SCALE }.sub_spec(a)).add_spec(blue.mul_spec(a))
}

pub fn sky_color(ray: &Ray) -> (c: Vec3)
    ensures
        c == sky_color_spec(*ray),
{
    let unit_direction = ray.direction.normalized();
    let a = unit_direction.y.add(Fx { raw: SCALE }).div(Fx { raw: TWO_RAW });

    // Linear interpolation
    let white = Vec3::new(Fx { raw: SCALE }, Fx { raw: SCALE }, Fx { raw: SCALE });
    let blue = Vec3::new(Fx { raw: HALF_RAW }, Fx { raw: SKY_GREEN_RAW }, Fx { raw: SCALE });
    white.mul(Fx { raw: SCALE }.sub(a)).add(blue.mul(a))
}

/// Shade a ray against a single preview sphere of radius one half a unit in
/// front of the origin: color by the surface normal on a hit, else the sky.
pub open spec fn ray_color_spec(ray: Ray) -> Vec3 {
    let sphere_center = Vec3 { x: Fx { raw: 0 }, y: Fx { raw: 0 }, z: Fx { raw: MINUS_ONE_RAW } };
    let t = hit_sphere_spec(sphere_center, Fx { raw: HALF_RAW }, ray);
    if t.raw > 0 {
        let normal = ray.at_spec(t).sub_spec(sphere_center).normalized_spec();
        let one = Fx { raw: SCALE };
        Vec3 {
            x: normal.x.add_spec(one),
            y: normal.y.add_spec(one),
            z: normal.z.add_spec(one),
        }.div_spec(Fx { raw: TWO_RAW })
    } else {
        sky_color_spec(ray)
    }
}

pub fn ray_color(ray: &Ray) -> (c: Vec3)
    requires
        ray.direction.length_squared_spec().raw != 0,
    ensures
        c == ray_color_spec(*ray),
{
    let sphere_center = Vec3::new(Fx { raw: 0 }, Fx { raw: 0 }, Fx { raw: MINUS_ONE_RAW });
    let t = hit_sphere(&sphere_center, Fx { raw: HALF_RAW }, ray);
    if t.raw > 0 {
        let normal = ray.at(t).sub(sphere_center).normalized();
        let one = Fx { raw: SCALE };
        return Vec3::new(normal.x.add(one), normal.y.add(one), normal.z.add(one)).div(
            Fx { raw: TWO_RAW },
        );
    }
    sky_color(ray)
}

/// The parameter window used for every scene query: a little above zero (to
/// avoid re-hitting a scattered ray's own origin) out to the largest
/// representable value.
pub open spec fn scene_range() -> Interval {
    Interval { min: Fx { raw: T_MIN_RAW }, max: Fx { raw: MAX_RAW } }
}

/// The colors the recursive evaluation can yield for `ray` with `budget`
/// bounces left in `world`: an exhausted budget gives exact black; a miss of
/// the whole scene gives exactly the sky gradient; a hit gives black
/// (absorption) or the struck material's albedo times a color possible for
/// some ray that material's scattering law admits from the hit — which
/// outcome, and the scattered direction, turn on the generator's draws.
pub open spec fn possible_color(world: Seq<Sphere>, ray: Ray, budget: int, color: Vec3) -> bool
    decreases budget,
{
    if budget <= 0 {
        color == v3_zero()
    } else {
        match scene_hit_spec(world, ray, scene_range()) {
            Option::None => color == sky_color_spec(ray),
            Option::Some(h) => color == v3_zero() || exists|mh: MaterialHit, c: Vec3|
                #![trigger scatter_possible(h.material, ray, h, mh), attenuate_spec(
                    h.material.albedo_spec(),
                    c,
                )]
                scatter_possible(h.material, ray, h, mh) && possible_color(
                    world,
                    mh.scattered_ray,
                    budget - 1,
                    c,
                ) && color == attenuate_spec(h.material.albedo_spec(), c),
        }
    }
}

pub struct Camera {
    pub aspect_ratio: Fx,
    pub image_width: i32,
    pub samples_per_pixel: i32,
    pub max_ray_bounces_allowed: i32,
    pub image_height: i32,
    pub pixel_samples_scale: Fx,
    pub center: Vec3,
    pub pixel_00_location: Vec3,
    pub pixel_delta_u: Vec3,
    pub pixel_delta_v: Vec3,
}

impl Camera {
    /// Rows derived from the requested width and aspect ratio: the quotient
    /// rounded to the nearest whole number (half rounds up), at least one.
    pub open spec fn image_height_spec(self) -> int {
        let w = fx_from_int(self.image_width as int);
        let h = fx_div(w, self.aspect_ratio.raw as int);
        let ih = sdiv(fx_add(h, HALF_RAW as int), SCALE as int);
        if ih < 1 {
            1
        } else {
            ih
        }
    }

    /// Machine limits on the configuration: a positive pixel grid that fits
    /// the arithmetic, a positive aspect ratio, at least one sample.
    pub open spec fn config_wf(self) -> bool {
        &&& 1 <= self.image_width <= 0x10_0000
        &&& 1 <= self.samples_per_pixel
        &&& self.aspect_ratio.raw >= 1
        &&& 1 <= self.image_height_spec() <= 0x10_0000
    }

    /// The derived viewport state: unit focal length, viewport two units
    /// tall, width matching the actual pixel aspect ratio, pixel deltas
    /// splitting the viewport evenly, and pixel (0,0) half a pixel inward
    /// from the upper-left corner.
    pub open spec fn initialized_spec(self) -> Camera {
        let ih = self.image_height_spec();
        let w_fx = Fx::from_int_spec(self.image_width as int);
        let h_fx = Fx::from_int_spec(ih);
        let two = Fx { raw: TWO_RAW };
        let viewport_height = two;
        let viewport_width = viewport_height.mul_spec(w_fx.div_spec(h_fx));
        let viewport_u = Vec3 { x: viewport_width, y: Fx { raw: 0 }, z: Fx { raw: 0 } };
        let viewport_v = Vec3 { x: Fx { raw: 0 }, y: viewport_height.neg_spec(), z: Fx { raw: 0 } };
        let pixel_delta_u = viewport_u.div_spec(w_fx);
        let pixel_delta_v = viewport_v.div_spec(h_fx);
        let center = Vec3 { x: Fx { raw: 0 }, y: Fx { raw: 0 }, z: Fx { raw: 0 } };
        let focal = Vec3 { x: Fx { raw: 0 }, y: Fx { raw: 0 }, z: Fx { raw: SCALE } };
        let viewport_upper_left = center.sub_spec(focal).sub_spec(viewport_u.div_spec(two)).sub_spec(
            viewport_v.div_spec(two),
        );
        let pixel_00_location = viewport_upper_left.add_spec(
            pixel_delta_u.add_spec(pixel_delta_v).div_spec(two),
        );
        Camera {
            image_height: ih as i32,
            pixel_samples_scale: Fx { raw: SCALE }.div_spec(
                Fx::from_int_spec(self.samples_per_pixel as int),
            ),
            center,
            pixel_00_location,
            pixel_delta_u,
            pixel_delta_v,
            ..self
        }
    }

    /// The world point a ray is aimed through for pixel `(px, py)` with a
    /// jitter `offset` in pixel-delta units.
    pub open spec fn pixel_sample_spec(self, px: int, py: int, offset: Vec3) -> Vec3 {
        self.pixel_00_location.add_spec(
            self.pixel_delta_u.mul_spec(Fx::from_int_spec(px).add_spec(offset.x)),
        ).add_spec(self.pixel_delta_v.mul_spec(Fx::from_int_spec(py).add_spec(offset.y)))
    }

    /// A ray this camera can cast for pixel `(px, py)`: from the center
    /// toward the pixel's sample point, jittered at most half a pixel in
    /// each grid direction.
    pub open spec fn is_camera_ray(self, px: int, py: int, ray: Ray) -> bool {
        &&& ray.origin == self.center
        &&& exists|offset: Vec3|
            (-HALF_RAW <= offset.x.raw <= HALF_RAW) && (-HALF_RAW <= offset.y.raw <= HALF_RAW)
                && offset.z.raw == 0 && ray.direction == #[trigger] self.pixel_sample_spec(
                px,
                py,
                offset,
            ).sub_spec(self.center)
    }

    /// The accumulated color of one pixel: the sum of `n` sample colors,
    /// each a color the recursive evaluation (with this camera's bounce
    /// budget) can yield along some camera ray through pixel `(px, py)`.
    pub open spec fn pixel_samples_sum(
        self,
        world: Seq<Sphere>,
        px: int,
        py: int,
        n: int,
        acc: Vec3,
    ) -> bool
        decreases n,
    {
        if n <= 0 {
            acc == v3_zero()
        } else {
            exists|prev: Vec3, sample: Vec3, r: Ray|
                #![trigger prev.add_spec(sample), self.is_camera_ray(px, py, r)]
                self.pixel_samples_sum(world, px, py, n - 1, prev) && self.is_camera_ray(px, py, r)
                    && possible_color(world, r, self.max_ray_bounces_allowed as int, sample) && acc
                    == prev.add_spec(sample)
        }
    }

    /// The pixel for grid cell `(px, py)`: the quantization of the sum of
    /// this camera's sample colors for that cell, scaled by the
    /// sample-averaging factor.
    pub open spec fn pixel_rendered(self, world: Seq<Sphere>, px: int, py: int, p: Pixel) -> bool {
        exists|acc: Vec3|
            self.pixel_samples_sum(world, px, py, self.samples_per_pixel as int, acc) && p == (
            #[trigger] acc.mul_spec(self.pixel_samples_scale)).to_pixel_spec()
    }

    pub fn new(
        aspect_ratio: Fx,
        image_width: i32,
        samples_per_pixel: i32,
        max_ray_bounces_allowed: i32,
    ) -> (c: Camera)
        ensures
            c == (Camera {
                aspect_ratio,
                image_width,
                samples_per_pixel,
                max_ray_bounces_allowed,
                image_height: 0,
                pixel_samples_scale: Fx { raw: 0 },
                center: Vec3 { x: Fx { raw: 0 }, y: Fx { raw: 0 }, z: Fx { raw: 0 } },
                pixel_00_location: Vec3 { x: Fx { raw: 0 }, y: Fx { raw: 0 }, z: Fx { raw: 0 } },
                pixel_delta_u: Vec3 { x: Fx { raw: 0 }, y: Fx { raw: 0 }, z: Fx { raw: 0 } },
                pixel_delta_v: Vec3 { x: Fx { raw: 0 }, y: Fx { raw: 0 }, z: Fx { raw: 0 } },
            }),
    {
        Camera {
            aspect_ratio,
            image_width,
            samples_per_pixel,
            max_ray_bounces_allowed,
            image_height: 0,
            pixel_samples_scale: Fx { raw: 0 },
            center: Vec3::new_zero(),
            pixel_00_location: Vec3::new_zero(),
            pixel_delta_u: Vec3::new_zero(),
            pixel_delta_v: Vec3::new_zero(),
        }
    }

    fn initialize(&mut self)
        requires
            old(self).config_wf(),
        ensures
            *final(self) == old(self).initialized_spec(),
    {
        let w_fx = Fx::from_int(self.image_width as i64);
        let height_fx = w_fx.div(self.aspect_ratio).add(Fx { raw: HALF_RAW });
        let ih: i64 = height_fx.to_int_trunc();
        let ih: i64 = if ih < 1 {
            1
        } else {
            ih
        };
        self.image_height = ih as i32;

        self.pixel_samples_scale = Fx { raw: SCALE }.div(
            Fx::from_int(self.samples_per_pixel as i64),
        );

        self.center = Vec3::new_zero();

        let focal_length = Fx { raw: SCALE };
        let two = Fx { raw: TWO_RAW };
        let viewport_height = two;
        let h_fx = Fx::from_int(self.image_height as i64);
        let viewport_width = viewport_height.mul(w_fx.div(h_fx));

        let viewport_u = Vec3::new(viewport_width, Fx { raw: 0 }, Fx { raw: 0 });
        let viewport_v = Vec3::new(Fx { raw: 0 }, viewport_height.neg(), Fx { raw: 0 });

        self.pixel_delta_u = viewport_u.div(w_fx);
        self.pixel_delta_v = viewport_v.div(h_fx);

        let viewport_upper_left = self.center.sub(
            Vec3::new(Fx { raw: 0 }, Fx { raw: 0 }, focal_length),
        ).sub(viewport_u.div(two)).sub(viewport_v.div(two));
        self.pixel_00_location = viewport_upper_left.add(
            self.pixel_delta_u.add(self.pixel_delta_v).div(two),
        );
    }

    /// Recursive light transport: an exhausted bounce budget contributes
    /// exact black; a miss of the whole scene (over the shadow-acne
    /// interval) returns exactly the sky gradient; a hit either is absorbed
    /// (black) or attenuates some recursively gathered color component-wise
    /// by the struck material's albedo — which of the two, and the gathered
    /// color itself, turn on the generator's draws.
    pub fn ray_color(
        &self,
        ray: &Ray,
        ray_bounces_allowed: i32,
        world: &Vec<Sphere>,
        rng: &mut rand::rngs::StdRng,
    ) -> (color: Vec3)
        ensures
            possible_color(world@, *ray, ray_bounces_allowed as int, color),
            ray_bounces_allowed <= 0 ==> color == v3_zero(),
            ray_bounces_allowed > 0 ==> match scene_hit_spec(world@, *ray, scene_range()) {
                Option::None => color == sky_color_spec(*ray),
                Option::Some(h) => match h.material {
                    Material::Metal(m) => (m.fuzz.raw == 0 && Vec3::dot_spec(
                        Vec3::reflect_spec(ray.direction, h.normal).normalized_spec(),
                        h.normal,
                    ).raw <= 0) ==> color == v3_zero(),
                    Material::Lambertian(_) => true,
                },
            },
            ray_bounces_allowed > 0 && world@.len() == 0 ==> color == sky_color_spec(*ray),
        decreases ray_bounces_allowed,
    {
        if ray_bounces_allowed <= 0 {
            return Vec3::new_zero();
        }

        let hit_result = world.hit(
            ray,
            &Interval { min: Fx { raw: T_MIN_RAW }, max: Fx { raw: MAX_RAW } },
        );
        match hit_result {
            Option::Some(hit_record) => {
                match hit_record.material.scatter(ray, &hit_record, rng) {
                    Option::Some(material_hit) => {
                        let attenuation = material_hit.attenuation;
                        let gathered = self.ray_color(
                            &material_hit.scattered_ray,
                            ray_bounces_allowed - 1,
                            world,
                            rng,
                        );
                        let shaded = Vec3::new(
                            attenuation.x.mul(gathered.x),
                            attenuation.y.mul(gathered.y),
                            attenuation.z.mul(gathered.z),
                        );
                        proof {
                            assert(scatter_possible(
                                hit_record.material,
                                *ray,
                                hit_record,
                                material_hit,
                            ));
                            assert(possible_color(
                                world@,
                                material_hit.scattered_ray,
                                ray_bounces_allowed as int - 1,
                                gathered,
                            ));
                            assert(shaded == attenuate_spec(
                                hit_record.material.albedo_spec(),
                                gathered,
                            ));
                            assert(possible_color(world@, *ray, ray_bounces_allowed as int, shaded));
                        }
                        return shaded;
                    },
                    Option::None => {
                        return Vec3::new_zero();
                    },
                }
            },
            Option::None => {},
        }

        sky_color(ray)
    }

    /// A ray from the camera center through pixel `(pixel_x, pixel_y)`,
    /// jittered within the pixel for anti-aliasing.
    fn get_ray(&self, pixel_x: i32, pixel_y: i32, rng: &mut rand::rngs::StdRng) -> (ray: Ray)
        ensures
            self.is_camera_ray(pixel_x as int, pixel_y as int, ray),
    {
        let offset = self.sample_square(rng);
        let pixel_sample = self.pixel_00_location.add(
            self.pixel_delta_u.mul(Fx::from_int(pixel_x as i64).add(offset.x)),
        ).add(self.pixel_delta_v.mul(Fx::from_int(pixel_y as i64).add(offset.y)));

        let origin = self.center;
        let direction = pixel_sample.sub(origin);

        let ray = Ray { origin, direction };
        proof {
            assert(ray.direction == self.pixel_sample_spec(
                pixel_x as int,
                pixel_y as int,
                offset,
            ).sub_spec(self.center));
        }
        ray
    }

    /// The vector to a random point in the square from -1/2 to +1/2 in
    /// pixel-delta units.
    fn sample_square(&self, rng: &mut rand::rngs::StdRng) -> (offset: Vec3)
        ensures
            -HALF_RAW <= offset.x.raw <= HALF_RAW,
            -HALF_RAW <= offset.y.raw <= HALF_RAW,
            offset.z.raw == 0,
    {
        Vec3::new(
            Fx { raw: rand_i64_inclusive(rng, -HALF_RAW, HALF_RAW) },
            Fx { raw: rand_i64_inclusive(rng, -HALF_RAW, HALF_RAW) },
            Fx { raw: 0 },
        )
    }

    /// Render the scene: derive the viewport, then emit one pixel per grid
    /// cell in row-major order (top to bottom, left to right), each the
    /// average of `samples_per_pixel` jittered samples.
    pub fn render(&mut self, world: &Vec<Sphere>, rng: &mut rand::rngs::StdRng) -> (pixels: Vec<
        Pixel,
    >)
        requires
            old(self).config_wf(),
        ensures
            *final(self) == old(self).initialized_spec(),
            pixels@.len() == old(self).initialized_spec().image_height
                * old(self).initialized_spec().image_width,
            forall|k: int|
                0 <= k < pixels@.len() ==> old(self).initialized_spec().pixel_rendered(
                    world@,
                    k % (old(self).image_width as int),
                    k / (old(self).image_width as int),
                    #[trigger] pixels@[k],
                ),
    {
        self.initialize();
        let ghost cam = *self;

        let mut pixels: Vec<Pixel> = Vec::new();
        let mut j: i32 = 0;
        while j < self.image_height
            invariant
                *self == cam,
                1 <= self.image_width,
                1 <= self.samples_per_pixel,
                0 <= j <= self.image_height,
                pixels@.len() == j * self.image_width,
                forall|k: int|
                    0 <= k < pixels@.len() ==> cam.pixel_rendered(
                        world@,
                        k % (cam.image_width as int),
                        k / (cam.image_width as int),
                        #[trigger] pixels@[k],
                    ),
            decreases self.image_height - j,
        {
            let mut i: i32 = 0;
            while i < self.image_width
                invariant
                    *self == cam,
                    1 <= self.image_width,
                    1 <= self.samples_per_pixel,
                    0 <= j,
                    0 <= i <= self.image_width,
                    pixels@.len() == j * self.image_width + i,
                    forall|k: int|
                        0 <= k < pixels@.len() ==> cam.pixel_rendered(
                            world@,
                            k % (cam.image_width as int),
                            k / (cam.image_width as int),
                            #[trigger] pixels@[k],
                        ),
                decreases self.image_width - i,
            {
                let mut pixel_color = Vec3::new_zero();
                let mut sample: i32 = 0;
                proof {
                    assert(cam.pixel_samples_sum(world@, i as int, j as int, 0, pixel_color));
                }
                while sample < self.samples_per_pixel
                    invariant
                        *self == cam,
                        0 <= sample <= self.samples_per_pixel,
                        cam.pixel_samples_sum(world@, i as int, j as int, sample as int, pixel_color),
                    decreases self.samples_per_pixel - sample,
                {
                    let ray = self.get_ray(i, j, rng);
                    let sample_color = self.ray_color(&ray, self.max_ray_bounces_allowed, world, rng);
                    let ghost previous = pixel_color;
                    pixel_color.add_assign(sample_color);
                    proof {
                        assert(cam.is_camera_ray(i as int, j as int, ray));
                        assert(possible_color(
                            world@,
                            ray,
                            cam.max_ray_bounces_allowed as int,
                            sample_color,
                        ));
                        assert(cam.pixel_samples_sum(world@, i as int, j as int, sample as int, previous));
                        assert(cam.pixel_samples_sum(
                            world@,
                            i as int,
                            j as int,
                            sample as int + 1,
                            pixel_color,
                        ));
                    }
                    sample = sample + 1;
                }

                let ghost accumulated = pixel_color;
                pixel_color.mul_assign(self.pixel_samples_scale);
                let pixel = pixel_color.to_pixel();
                proof {
                    assert(pixel == accumulated.mul_spec(cam.pixel_samples_scale).to_pixel_spec());
                    assert(cam.pixel_rendered(world@, i as int, j as int, pixel));
                    let k0 = pixels@.len() as int;
                    lemma_fundamental_div_mod_converse_div(k0, cam.image_width as int, j as int, i as int);
                    lemma_fundamental_div_mod_converse_mod(k0, cam.image_width as int, j as int, i as int);
                    assert(k0 % (cam.image_width as int) == i as int);
                    assert(k0 / (cam.image_width as int) == j as int);
                }
                pixels.push(pixel);
                i = i + 1;
            }
            proof {
                assert((j + 1) * (self.image_width as int) == j * (self.image_width as int)
                    + self.image_width) by (nonlinear_arith);
            }
            j = j + 1;
        }
        pixels
    }
}

} // verus!
