use raytracer::camera::{render_color, Camera, Renderable};
use raytracer::geometry::{HitRecord, Hittable, Sphere};
use raytracer::interval::{Interval, POS_INF};
use raytracer::ray::Ray;
use raytracer::vec3::Vec3;
use raytracer::world::World;

fn axis_ray() -> Ray {
    Ray::new(Vec3::new(0, 0, 0), Vec3::new(0, 0, -1000))
}

#[test]
fn sphere_axial_hit_reports_distance_minus_radius() {
    let ray = axis_ray();
    let sphere = Sphere::new(Vec3::new(0, 0, -2000), 1000);
    let mut rec = HitRecord::default();
    assert!(sphere.hit(&ray, Interval::new(0, POS_INF), &mut rec));
    assert_eq!(rec.t(), 1000);
    assert_eq!(rec.p(), Vec3::new(0, 0, -1000));
    assert_eq!(rec.normal(), Vec3::new(0, 0, 1000));
}

#[test]
fn sphere_axial_hit_with_small_radius() {
    let ray = axis_ray();
    let sphere = Sphere::new(Vec3::new(0, 0, -2000), 500);
    let mut rec = HitRecord::default();
    assert!(sphere.hit(&ray, Interval::new(0, POS_INF), &mut rec));
    assert_eq!(rec.t(), 1500);
    assert_eq!(rec.normal(), Vec3::new(0, 0, 1000));
}

#[test]
fn sphere_boundary_hit_does_not_count() {
    let ray = axis_ray();
    let sphere = Sphere::new(Vec3::new(0, 0, -2000), 1000);
    let mut rec = HitRecord::default();
    // the nearer root sits exactly on the interval's open far end, and
    // the farther root exactly outside it
    assert!(!sphere.hit(&ray, Interval::new(0, 1000), &mut rec));
    assert_eq!(rec, HitRecord::default());
}

#[test]
fn sphere_miss_for_any_interval() {
    let ray = axis_ray();
    // closest approach two units to the side, radius one
    let sphere = Sphere::new(Vec3::new(2000, 0, -3000), 1000);
    let intervals = [
        Interval::new(0, POS_INF),
        Interval::new(i64::MIN, POS_INF),
        Interval::new(0, 1000),
        Interval::new(-5000, 5000),
    ];
    for iv in intervals {
        let mut rec = HitRecord::default();
        assert!(!sphere.hit(&ray, iv, &mut rec));
        assert_eq!(rec, HitRecord::default());
    }
}

#[test]
fn world_reports_nearest_hit_in_either_order() {
    let ray = axis_ray();
    let near = Sphere::new(Vec3::new(0, 0, -2000), 500);
    let far = Sphere::new(Vec3::new(0, 0, -4000), 500);
    let iv = Interval::new(0, POS_INF);

    let mut rec_a = HitRecord::default();
    assert!(World::new(vec![near, far]).hit(&ray, iv, &mut rec_a));
    let mut rec_b = HitRecord::default();
    assert!(World::new(vec![far, near]).hit(&ray, iv, &mut rec_b));

    assert_eq!(rec_a.t(), 1500);
    assert_eq!(rec_b.t(), 1500);
}

#[test]
fn overlapping_spheres_still_resolve_to_the_nearer_t() {
    let ray = axis_ray();
    let a = Sphere::new(Vec3::new(0, 0, -2000), 1000);
    let b = Sphere::new(Vec3::new(0, 0, -2500), 1000);
    let iv = Interval::new(0, POS_INF);

    let mut rec_ab = HitRecord::default();
    assert!(World::new(vec![a, b]).hit(&ray, iv, &mut rec_ab));
    let mut rec_ba = HitRecord::default();
    assert!(World::new(vec![b, a]).hit(&ray, iv, &mut rec_ba));

    assert_eq!(rec_ab.t(), 1000);
    assert_eq!(rec_ba.t(), 1000);
}

#[test]
fn shuffled_scene_reports_the_same_nearest_hit() {
    let ray = axis_ray();
    let a = Sphere::new(Vec3::new(0, 0, -2000), 500);
    let b = Sphere::new(Vec3::new(0, 0, -3000), 500);
    let c = Sphere::new(Vec3::new(0, 0, -5000), 1000);
    let iv = Interval::new(0, POS_INF);
    for objects in [vec![a, b, c], vec![c, b, a], vec![b, c, a], vec![c, a, b]] {
        let mut rec = HitRecord::default();
        assert!(World::new(objects).hit(&ray, iv, &mut rec));
        assert_eq!(rec.t(), 1500);
    }
}

#[test]
fn depth_zero_renders_black() {
    let worlds = [
        World::new(vec![Sphere::new(Vec3::new(0, 0, -2000), 1000)]),
        World::new(vec![]),
    ];
    let rays = [
        axis_ray(),
        Ray::new(Vec3::new(500, -500, 0), Vec3::new(100, 200, 300)),
    ];
    for world in &worlds {
        for ray in &rays {
            let color = world.render_pixel(ray, 0, Interval::new(1, POS_INF));
            assert_eq!(color, Vec3::new(0, 0, 0));
        }
    }
}

#[test]
fn background_gradient_boundaries() {
    let world: World<Sphere> = World::new(vec![]);
    let iv = Interval::new(1, POS_INF);

    let up = Ray::new(Vec3::new(0, 0, 0), Vec3::new(0, 1000, 0));
    assert_eq!(world.render_pixel(&up, 1, iv), Vec3::new(500, 700, 1000));

    let down = Ray::new(Vec3::new(0, 0, 0), Vec3::new(0, -1000, 0));
    assert_eq!(world.render_pixel(&down, 1, iv), Vec3::new(1000, 1000, 1000));
}

#[test]
fn render_color_exact_bytes() {
    let line = render_color(Vec3::new(1000, 0, 250), 1);
    assert_eq!(line, "255 0 128");
}

#[test]
fn color_averaging_matches_single_sample() {
    let samples = [
        Vec3::new(400, 200, 900),
        Vec3::new(16, 16, 16),
        Vec3::new(0, 1000, 333),
        Vec3::new(-50, 7, 999),
    ];
    for c in samples {
        let sum = c.add(c).add(c);
        assert_eq!(render_color(sum, 3), render_color(c, 1));
    }
}

#[test]
fn camera_replaces_zero_samples_and_depth() {
    let cam = Camera::new(1777, 400, 0, 0);
    assert_eq!(cam.samples_per_pixel, 10);
    assert_eq!(cam.max_depth, 10);
    assert_eq!(cam.image_height, 225);
    assert_eq!(cam.image_width, 400);
}

#[test]
fn camera_height_never_drops_below_one() {
    let cam = Camera::new(2_000_000, 1, 1, 1);
    assert_eq!(cam.image_height, 1);
}

#[test]
fn one_pixel_render_emits_header_and_one_triplet() {
    let camera = Camera::new(1000, 1, 1, 1);
    let world = World::new(vec![Sphere::new(Vec3::new(0, 0, -1000), 500)]);
    let image = camera.render(&world);

    let lines: Vec<&str> = image.split('\n').collect();
    assert_eq!(lines.len(), 6);
    let magic: Vec<char> = lines[0].chars().collect();
    assert_eq!(magic, vec!['P', '3']);
    assert_eq!(lines[1], "1 1");
    assert_eq!(lines[2], "255");
    assert_eq!(lines[3], "");
    let triplet: Vec<i64> = lines[4]
        .split(' ')
        .map(|w| w.parse().unwrap())
        .collect();
    assert_eq!(triplet.len(), 3);
    for channel in triplet {
        assert!((0..=255).contains(&channel));
    }
    assert_eq!(lines[5], "");
}

#[test]
fn wider_render_emits_one_line_per_pixel() {
    let camera = Camera::new(2000, 4, 2, 3);
    assert_eq!(camera.image_height, 2);
    let world = World::new(vec![
        Sphere::new(Vec3::new(0, 0, -1000), 500),
        Sphere::new(Vec3::new(0, -100_500, -1000), 100_000),
    ]);
    let image = camera.render(&world);
    let lines: Vec<&str> = image.split('\n').collect();
    // header, blank line, eight pixels, trailing break
    assert_eq!(lines.len(), 4 + 8 + 1);
    for line in &lines[4..12] {
        let triplet: Vec<i64> = line.split(' ').map(|w| w.parse().unwrap()).collect();
        assert_eq!(triplet.len(), 3);
        for channel in triplet {
            assert!((0..=255).contains(&channel));
        }
    }
}
