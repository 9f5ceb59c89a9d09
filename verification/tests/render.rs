use elktracer::{
    as_rgba, bits_of_key, cast_ray, key_of_bits, render_image, Bounce, Image, RenderOptions, Rgba,
    Roots,
};
use std::cell::Cell;

type Vec3 = [f64; 3];

fn add3(a: Vec3, b: Vec3) -> Vec3 {
    [a[0] + b[0], a[1] + b[1], a[2] + b[2]]
}

fn sub3(a: Vec3, b: Vec3) -> Vec3 {
    [a[0] - b[0], a[1] - b[1], a[2] - b[2]]
}

fn scale3(a: Vec3, by: f64) -> Vec3 {
    [a[0] * by, a[1] * by, a[2] * by]
}

fn mul3(a: Vec3, b: Vec3) -> Vec3 {
    [a[0] * b[0], a[1] * b[1], a[2] * b[2]]
}

fn dot3(a: Vec3, b: Vec3) -> f64 {
    a[0] * b[0] + a[1] * b[1] + a[2] * b[2]
}

fn unit3(a: Vec3) -> Vec3 {
    scale3(a, 1.0 / dot3(a, a).sqrt())
}

fn key(value: f64) -> i64 {
    key_of_bits(value.to_bits())
}

fn value(key: i64) -> f64 {
    f64::from_bits(bits_of_key(key).unwrap())
}

#[derive(Clone, Copy)]
struct Ray {
    origin: Vec3,
    direction: Vec3,
}

enum Material {
    Lambert { albedo: Vec3 },
    Metal { albedo: Vec3 },
}

struct Sphere {
    center: Vec3,
    radius: f64,
    material: Material,
}

struct Random {
    state: Cell<u64>,
}

impl Random {
    fn new(seed: u64) -> Self {
        Self { state: Cell::new(seed) }
    }

    fn zero_to_one(&self) -> f64 {
        let mut x = self.state.get();
        x ^= x << 13;
        x ^= x >> 7;
        x ^= x << 17;
        self.state.set(x);
        (x >> 11) as f64 / (1u64 << 53) as f64
    }

    fn unit(&self) -> Vec3 {
        loop {
            let p = [
                2.0 * self.zero_to_one() - 1.0,
                2.0 * self.zero_to_one() - 1.0,
                2.0 * self.zero_to_one() - 1.0,
            ];
            let lensq = dot3(p, p);
            if 1e-160 < lensq && lensq <= 1.0 {
                return scale3(p, 1.0 / lensq.sqrt());
            }
        }
    }
}

fn scene() -> Vec<Sphere> {
    vec![
        Sphere {
            center: [0.0, -100.5, -1.0],
            radius: 100.0,
            material: Material::Lambert { albedo: [0.8, 0.8, 0.0] },
        },
        Sphere {
            center: [0.0, 0.0, -1.0],
            radius: 0.5,
            material: Material::Metal { albedo: [0.7, 0.7, 0.7] },
        },
    ]
}

fn roots_of(ray: &Ray, sphere: &Sphere) -> Option<Roots> {
    let oc = sub3(sphere.center, ray.origin);
    let a = dot3(ray.direction, ray.direction);
    let h = dot3(ray.direction, oc);
    let discriminant = h * h - a * (dot3(oc, oc) - sphere.radius * sphere.radius);
    if discriminant < 0.0 {
        return None;
    }
    let root = discriminant.sqrt();
    Some(Roots { near: key((h - root) / a), far: key((h + root) / a) })
}

fn render(seed: u64, width: u32, rows: u32, samples: u16, depth: u16) -> Image {
    let options = RenderOptions::new(width, rows, samples, depth);
    let random = Random::new(seed);
    let spheres = scene();
    let viewport_for = |width: u32, height: u32| -> (Vec3, Vec3, Vec3) {
        let viewport_height = 2.0;
        let viewport_width = viewport_height * (width as f64 / height as f64);
        let delta_x = [viewport_width / width as f64, 0.0, 0.0];
        let delta_y = [0.0, -viewport_height / height as f64, 0.0];
        let upper_left = add3(
            [-viewport_width / 2.0, viewport_height / 2.0, -1.0],
            scale3(add3(delta_x, delta_y), 0.5),
        );
        (upper_left, delta_x, delta_y)
    };
    let get_ray = |viewport: &(Vec3, Vec3, Vec3), x: u32, y: u32| {
        let (upper_left, delta_x, delta_y) = *viewport;
        let dx = random.zero_to_one() - 0.5;
        let dy = random.zero_to_one() - 0.5;
        let target = add3(
            upper_left,
            add3(scale3(delta_x, x as f64 + dx), scale3(delta_y, y as f64 + dy)),
        );
        Ray { origin: [0.0; 3], direction: target }
    };
    let scatter = |ray: &Ray, sphere: &Sphere, t: i64| -> Option<(Ray, Vec3)> {
        let point = add3(ray.origin, scale3(ray.direction, value(t)));
        let outward = scale3(sub3(point, sphere.center), 1.0 / sphere.radius);
        let normal = if dot3(ray.direction, outward) < 0.0 { outward } else { scale3(outward, -1.0) };
        assert!(dot3(ray.direction, normal) <= 0.0);
        match sphere.material {
            Material::Lambert { albedo } => {
                let direction = add3(normal, random.unit());
                Some((Ray { origin: point, direction }, albedo))
            }
            Material::Metal { albedo } => {
                let d = ray.direction;
                let reflected = unit3(sub3(d, scale3(normal, 2.0 * dot3(d, normal))));
                if dot3(reflected, normal) > 0.0 {
                    Some((Ray { origin: point, direction: reflected }, albedo))
                } else {
                    None
                }
            }
        }
    };
    let cast = |ray: &Ray| -> Bounce<Ray, Vec3> { cast_ray(ray, &spheres, &roots_of, &scatter) };
    let background = |ray: &Ray| {
        let a = (unit3(ray.direction)[1] + 1.0) * 0.5;
        assert!((0.0..=1.0).contains(&a));
        add3(scale3([1.0, 1.0, 1.0], 1.0 - a), scale3([0.3, 0.6, 0.9], a))
    };
    let attenuate = |attenuation: Vec3, color: Vec3| mul3(attenuation, color);
    let combine = |total: Vec3, color: Vec3| add3(total, color);
    let scale = 1.0 / samples as f64;
    let gamma = |linear: f64| if linear > 0.0 { linear.sqrt() } else { 0.0 };
    let finish = |total: Vec3| -> Rgba {
        let mean = scale3(total, scale);
        as_rgba(key(gamma(mean[0])), key(gamma(mean[1])), key(gamma(mean[2])))
    };
    render_image(
        &options,
        [0.0; 3],
        &viewport_for,
        &get_ray,
        &cast,
        &background,
        &attenuate,
        &combine,
        &finish,
    )
}

fn pixel(image: &Image, data: &[u8], x: u32, y: u32) -> [u8; 4] {
    let at = ((y * image.width() + x) * 4) as usize;
    [data[at], data[at + 1], data[at + 2], data[at + 3]]
}

#[test]
fn a_render_with_a_seeded_random_source_is_deterministic() {
    let first = render(0x9E37_79B9_7F4A_7C15, 400, 225, 10, 10);
    let second = render(0x9E37_79B9_7F4A_7C15, 400, 225, 10, 10);
    assert_eq!(first.width(), 400);
    assert_eq!(first.height(), 225);
    assert_eq!(first.data().len(), 400 * 225 * 4);
    assert_eq!(first.data(), second.data());
}

#[test]
fn a_render_shows_sky_ground_and_the_metal_sphere() {
    let image = render(0x1234_5678_9ABC_DEF1, 80, 45, 20, 10);
    let data = image.data();
    assert!(data.chunks(4).all(|p| p[3] == 255));

    let sky = pixel(&image, &data, 40, 0);
    assert!(sky[2] > 230 && sky[0] < sky[1] && sky[1] < sky[2]);

    let ground = pixel(&image, &data, 5, 44);
    assert!(ground[2] < 40 && ground[0] > 100 && ground[1] > 100);

    let sphere_top = pixel(&image, &data, 40, 14);
    assert!(sphere_top[2] > 150);
    assert!(sphere_top[2] < sky[2]);
}

#[test]
fn a_render_without_depth_is_black() {
    let image = render(7, 16, 9, 3, 0);
    assert!(image.data().chunks(4).all(|p| p == [0, 0, 0, 255]));
}
