use raytrace::Camera;
use raytrace::gen_image;
use raytrace::ray::Hit;
use raytrace::ray::Hitable;
use raytrace::ray::Ray;
use raytrace::ray::Sphere;
use raytrace::ray::StandardMaterial;
use raytrace::ray::random_point_in_unit_sphere;
use raytrace::ray::scale_value_to_range;
use raytrace::rng::Rng;
use raytrace::scalar::Scalar;
use raytrace::vec3::Vec3;
use raytrace::image::Image;

fn s(x: f64) -> Scalar {
    Scalar { units: (x * 1_000_000.0).round() as i64 }
}

fn v(x: f64, y: f64, z: f64) -> Vec3 {
    Vec3(s(x), s(y), s(z))
}

fn matte(red: f64, green: f64, blue: f64) -> StandardMaterial {
    StandardMaterial { reflection: s(0.0), color: v(red, green, blue), albedo: s(0.5) }
}

#[test]
fn test_point_at_t() {
    let r = Ray { origin: v(0.0, 0.0, 0.0), direction: v(1.0, 2.0, 0.5) };
    assert_eq!(r.point_at_t(s(2.0)), v(2.0, 4.0, 1.0));
}

#[test]
fn test_scale_value_to_range() {
    assert_eq!(scale_value_to_range(s(-1.0), s(1.0), s(0.0), s(1.0), s(-1.0)), s(0.0));
    assert_eq!(scale_value_to_range(s(-1.0), s(1.0), s(0.0), s(1.0), s(0.0)), s(0.5));
    assert_eq!(scale_value_to_range(s(-1.0), s(1.0), s(0.0), s(1.0), s(1.0)), s(1.0));
    assert_eq!(scale_value_to_range(s(-7.0), s(-6.0), s(2.0), s(4.0), s(-7.0)), s(2.0));
    assert_eq!(scale_value_to_range(s(-7.0), s(-6.0), s(2.0), s(4.0), s(-6.5)), s(3.0));
    assert_eq!(scale_value_to_range(s(-7.0), s(-6.0), s(2.0), s(4.0), s(-6.0)), s(4.0));
}

#[test]
fn test_random_point_in_unit_sphere() {
    let mut rng = Rng::new(12345);
    let a = random_point_in_unit_sphere(&mut rng);
    let b = random_point_in_unit_sphere(&mut rng);
    let d0 = (a.0.units - b.0.units).abs();
    let d1 = (a.1.units - b.1.units).abs();
    let d2 = (a.2.units - b.2.units).abs();
    assert!(d0 > 1000 || d1 > 1000 || d2 > 1000);
}

#[test]
fn test_random_point_stays_in_unit_sphere() {
    let mut rng = Rng::new(99);
    for _ in 0..50 {
        let p = random_point_in_unit_sphere(&mut rng);
        assert!(p.length().units <= 1_000_000);
    }
}

#[test]
fn test_rng_is_reproducible() {
    let mut first = Rng::new(7);
    let mut second = Rng::new(7);
    for _ in 0..10 {
        assert_eq!(first.next_unit(), second.next_unit());
    }
}

#[test]
fn test_head_on_hit_at_distance_minus_radius() {
    let sphere = Sphere { center: v(0.0, 0.0, -5.0), radius: s(1.0), material: matte(1.0, 1.0, 1.0) };
    let r = Ray { origin: v(0.0, 0.0, 0.0), direction: v(0.0, 0.0, -1.0) };
    match sphere.hit(r) {
        Hit::Hit { t, point, normal, .. } => {
            assert_eq!(t, s(4.0));
            assert_eq!(point, v(0.0, 0.0, -4.0));
            assert_eq!(normal, v(0.0, 0.0, 1.0));
        },
        Hit::NoHit => panic!("expected a hit"),
    }
}

#[test]
fn test_offset_ray_misses() {
    let sphere = Sphere { center: v(0.0, 0.0, -5.0), radius: s(1.0), material: matte(1.0, 1.0, 1.0) };
    let r = Ray { origin: v(2.0, 0.0, 0.0), direction: v(0.0, 0.0, -1.0) };
    assert_eq!(sphere.hit(r), Hit::NoHit);
}

#[test]
fn test_inside_sphere_pointing_away_misses() {
    let sphere = Sphere { center: v(0.0, 0.0, -5.0), radius: s(1.0), material: matte(1.0, 1.0, 1.0) };
    let r = Ray { origin: v(0.0, 0.0, -4.5), direction: v(0.0, 0.0, 1.0) };
    assert_eq!(sphere.hit(r), Hit::NoHit);
}

#[test]
fn test_scene_returns_nearer_sphere() {
    let near = Sphere { center: v(0.0, 0.0, -5.0), radius: s(1.0), material: matte(1.0, 0.0, 0.0) };
    let far = Sphere { center: v(0.0, 0.0, -10.0), radius: s(1.0), material: matte(0.0, 0.0, 1.0) };
    let r = Ray { origin: v(0.0, 0.0, 0.0), direction: v(0.0, 0.0, -1.0) };
    for world in [vec![near, far], vec![far, near]] {
        match world.hit(r) {
            Hit::Hit { t, material, .. } => {
                assert_eq!(t, s(4.0));
                assert_eq!(material, near.material);
            },
            Hit::NoHit => panic!("expected a hit"),
        }
    }
}

#[test]
fn test_empty_scene_misses() {
    let world: Vec<Sphere> = vec![];
    let r = Ray { origin: v(0.0, 0.0, 0.0), direction: v(0.0, 0.0, -1.0) };
    assert_eq!(world.hit(r), Hit::NoHit);
}

#[test]
fn test_level_ray_sees_even_sky_blend() {
    let world: Vec<Sphere> = vec![];
    let mut rng = Rng::new(1);
    let r = Ray { origin: v(0.0, 0.0, 0.0), direction: v(1.0, 0.0, 0.0) };
    let color = r.color(&world, &mut rng, 50);
    assert_eq!(color, v(0.75, 0.85, 1.0));
}

#[test]
fn test_upward_ray_sees_sky_blue() {
    let world: Vec<Sphere> = vec![];
    let mut rng = Rng::new(1);
    let r = Ray { origin: v(0.0, 0.0, 0.0), direction: v(0.0, 1.0, 0.0) };
    let color = r.color(&world, &mut rng, 50);
    assert_eq!(color, v(0.5, 0.7, 1.0));
}

#[test]
fn test_mirror_scatter_reflects() {
    let material = StandardMaterial { reflection: s(1.0), color: v(1.0, 1.0, 1.0), albedo: s(0.8) };
    let mut rng = Rng::new(3);
    let scattered = material.scatter(v(1.0, 0.0, -1.0), v(0.0, 0.0, -1.0), v(0.0, 0.0, 1.0), &mut rng);
    assert_eq!(scattered.origin, v(0.0, 0.0, -1.0));
    assert_eq!(scattered.direction, v(0.707107, 0.0, 0.707107));
}

#[test]
fn test_attenuate_scales_by_albedo_and_color() {
    let material = StandardMaterial { reflection: s(0.0), color: v(1.0, 0.5, 0.25), albedo: s(0.5) };
    assert_eq!(material.attenuate(v(1.0, 1.0, 0.8)), v(0.5, 0.25, 0.1));
}

#[test]
fn test_camera_basis() {
    let c = Camera {
        up: v(0.0, 1.0, 0.0),
        look_from: v(0.0, 0.0, 0.0),
        look_to: v(0.0, 0.0, -1.0),
        aspect_ratio: s(2.0),
        focal_scale: s(1.0),
    };
    assert_eq!(c.horizontal(), v(2.0, 0.0, 0.0));
    assert_eq!(c.vertical(), v(0.0, 1.0, 0.0));
    assert_eq!(c.lower_left_corner(), v(-2.0, -1.0, -1.0));
}

#[test]
fn test_gen_image() {
    let world: Vec<Sphere> = vec![
        Sphere {
            center: v(0.0, 0.0, -1.0),
            radius: s(0.5),
            material: StandardMaterial { reflection: s(0.98), color: v(1.0, 0.2, 0.2), albedo: s(0.6) },
        },
        Sphere {
            center: v(0.0, -1000.5, -1.0),
            radius: s(1000.0),
            material: StandardMaterial { reflection: s(0.0), color: v(0.3, 0.6, 0.0), albedo: s(0.4) },
        },
        Sphere {
            center: v(0.9, -0.3, -0.9),
            radius: s(0.2),
            material: StandardMaterial { reflection: s(0.0), color: v(0.2, 0.2, 1.0), albedo: s(0.6) },
        },
        Sphere {
            center: v(-1.0, -0.1, -0.9),
            radius: s(0.4),
            material: StandardMaterial { reflection: s(1.0), color: v(1.0, 1.0, 0.6), albedo: s(0.8) },
        },
    ];
    let c = Camera {
        up: v(0.0, 1.0, 0.0),
        look_from: v(0.0, 0.0, 0.0),
        look_to: v(0.0, 0.0, -1.0),
        aspect_ratio: s(2.0),
        // The vertical field of view is 45 degrees; its cotangent is 1.
        focal_scale: s(1.0),
    };
    let mut rng = Rng::new(42);
    let image = gen_image(&world, c, s(10.0), 8, &mut rng);
    assert_eq!(image.columns, 10);
    assert_eq!(image.rows, 5);
    assert_eq!(image.pixel_colors.len(), 50);
}

#[test]
fn test_gen_image_rounds_rows_half_away_from_zero() {
    let world: Vec<Sphere> = vec![];
    let c = Camera {
        up: v(0.0, 1.0, 0.0),
        look_from: v(0.0, 0.0, 0.0),
        look_to: v(0.0, 0.0, -1.0),
        aspect_ratio: s(2.0),
        focal_scale: s(1.0),
    };
    let mut rng = Rng::new(0);
    // 11 / 2.0 = 5.5 rows, rounded away from zero to 6.
    let image = gen_image(&world, c, s(11.0), 1, &mut rng);
    assert_eq!(image.columns, 11);
    assert_eq!(image.rows, 6);
    assert_eq!(image.pixel_colors.len(), 66);
}

#[test]
fn test_gen_image_is_reproducible_from_seed() {
    let world: Vec<Sphere> = vec![Sphere {
        center: v(0.0, 0.0, -2.0),
        radius: s(0.5),
        material: matte(0.9, 0.4, 0.2),
    }];
    let c = Camera {
        up: v(0.0, 1.0, 0.0),
        look_from: v(0.0, 0.0, 0.0),
        look_to: v(0.0, 0.0, -1.0),
        aspect_ratio: s(2.0),
        focal_scale: s(1.0),
    };
    let mut first_rng = Rng::new(1234);
    let first = gen_image(&world, c, s(10.0), 2, &mut first_rng);
    let mut second_rng = Rng::new(1234);
    let second = gen_image(&world, c, s(10.0), 2, &mut second_rng);
    assert_eq!(first.pixel_colors, second.pixel_colors);
}

#[test]
fn test_to_ppm_layout() {
    let image = Image {
        columns: 2,
        rows: 1,
        max_channel_value: s(255.0),
        pixel_colors: vec![v(255.0, 128.5, 0.0), v(12.4, 1.5, 2.5)],
    };
    assert_eq!(image.to_ppm(), "P3\n2 1\n255\n255 128 0\n12 2 2\n");
}
