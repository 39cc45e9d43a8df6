use raytracer::fx::Fx;
use raytracer::vec3::{Vec3, random_in_unit_sphere};
use raytracer::ray::Ray;
use raytracer::hittable::HitRecord;
use raytracer::material::{Material, scatter, reflect};
use raytracer::sphere::Sphere;
use raytracer::plane::{Plane, Aabb, Rectangle};
use raytracer::hittable_list::{HittableList, Object};
use raytracer::camera::Camera;
use raytracer::render::{background, color, render_pixel, render};
use raytracer::scenes::{cornell_box, plane_scene, random_scene};

fn fx(units: i128) -> Fx {
    Fx { v: units * 1_000_000 }
}

fn v3(x: i128, y: i128, z: i128) -> Vec3 {
    Vec3 { x: fx(x), y: fx(y), z: fx(z) }
}

fn gray(units_millionths: i128) -> Vec3 {
    Vec3 {
        x: Fx { v: units_millionths },
        y: Fx { v: units_millionths },
        z: Fx { v: units_millionths },
    }
}

#[test]
fn fx_arithmetic_is_exact_scaled_integer_math() {
    let a = Fx::raw(1_500_000); // 1.5
    let b = Fx::raw(2_000_000); // 2.0
    assert_eq!(Fx::zero().v, 0);
    assert_eq!(Fx::one().v, 1_000_000);
    assert_eq!(a.add(b).v, 3_500_000);
    assert_eq!(a.sub(b).v, -500_000);
    assert_eq!(a.mul(a).v, 2_250_000); // 1.5 * 1.5 = 2.25
    assert_eq!(b.mul(a).v, 3_000_000);
    assert_eq!(a.div(b).v, 750_000); // 1.5 / 2 = 0.75
    assert_eq!(fx(4).sqrt().v, 2_000_000); // sqrt 4 = 2
    assert_eq!(Fx { v: 2_250_000 }.sqrt().v, 1_500_000); // sqrt 2.25 = 1.5
    assert_eq!(Fx { v: 2_999_999 }.floor().v, 2_000_000);
    assert_eq!(a.neg().v, -1_500_000);
    assert!(a.lt(b));
    assert!(!b.lt(a));
}

#[test]
fn fx_mul_truncates_toward_zero() {
    let tiny = Fx { v: 1 }; // 0.000001
    assert_eq!(tiny.mul(tiny).v, 0);
    let neg = Fx { v: -1_500_000 };
    assert_eq!(neg.mul(Fx { v: 500_000 }).v, -750_000);
    assert_eq!(Fx { v: -3 }.div(Fx { v: 2_000_000 }).v, -1); // -0.0000015 truncates to -0.000001
}

#[test]
fn vec3_algebra_matches_componentwise_definitions() {
    let a = v3(1, 2, 3);
    let b = v3(4, -5, 6);
    assert_eq!(a.add(b), v3(5, -3, 9));
    assert_eq!(a.sub(b), v3(-3, 7, -3));
    assert_eq!(a.neg(), v3(-1, -2, -3));
    assert_eq!(Vec3::dot(&a, &b).v, 12_000_000); // 4 - 10 + 18
    assert_eq!(a.squared_length().v, 14_000_000);
    assert_eq!(Vec3::cross(&a, &b), v3(27, 6, -13));
    assert_eq!(a.scale(fx(2)), v3(2, 4, 6));
    assert_eq!(a.mul(b), v3(4, -10, 18));
    assert_eq!(b.div(fx(2)), Vec3 {
        x: fx(2),
        y: Fx { v: -2_500_000 },
        z: fx(3),
    });
    assert_eq!(v3(3, 4, 0).length().v, 5_000_000);
    assert_eq!(Vec3::unit_vector(&v3(0, 0, 7)), v3(0, 0, 1));
}

#[test]
fn ray_point_at_parameter_is_origin_plus_t_direction() {
    let r = Ray::ray(v3(1, 1, 1), v3(0, 0, -2));
    assert_eq!(r.point_at_parameter(fx(3)), v3(1, 1, -5));
    assert_eq!(r.origin(), v3(1, 1, 1));
    assert_eq!(r.direction(), v3(0, 0, -2));
}

#[test]
fn sphere_round_trip_center_aim() {
    // a ray aimed exactly at the center from 5 units away, radius 1:
    // the hit parameter is the distance minus the radius, and the normal is
    // the unit vector back along the ray
    let s = Sphere::sphere(v3(0, 0, -5), fx(1), Material::Lambertian { albedo: gray(500_000) });
    let r = Ray::ray(v3(0, 0, 0), v3(0, 0, -1));
    let hit = s.hit(&r, Fx { v: 1000 }, fx(1_000_000)).expect("must hit");
    assert_eq!(hit.t().v, 4_000_000);
    assert_eq!(hit.p(), v3(0, 0, -4));
    assert_eq!(hit.normal(), v3(0, 0, 1));
    // the normal is unit length
    assert_eq!(hit.normal().squared_length().v, 1_000_000);
}

#[test]
fn sphere_prefers_nearer_root_and_respects_window() {
    let s = Sphere::sphere(v3(0, 0, -5), fx(1), Material::Lambertian { albedo: gray(500_000) });
    let r = Ray::ray(v3(0, 0, 0), v3(0, 0, -1));
    // window starting past the near face picks the far root
    let far = s.hit(&r, fx(5), fx(1_000_000)).expect("far root");
    assert_eq!(far.t().v, 6_000_000);
    // window that excludes both roots reports nothing
    assert!(s.hit(&r, fx(7), fx(1_000_000)).is_none());
    // a ray pointing away misses
    let away = Ray::ray(v3(0, 0, 0), v3(0, 0, 1));
    assert!(s.hit(&away, Fx { v: 1000 }, fx(1_000_000)).is_none());
}

#[test]
fn plane_parallel_ray_is_rejected() {
    let p = Plane::plane(v3(0, 1, 0), fx(2), Material::Lambertian { albedo: gray(800_000) });
    // direction orthogonal to the normal, origin off the plane
    let r = Ray::ray(v3(0, 0, 0), v3(1, 0, 0));
    assert!(p.hit(&r, Fx { v: 1000 }, fx(1_000_000)).is_none());
}

#[test]
fn plane_reports_the_solve_and_its_own_normal() {
    let p = Plane::plane(v3(0, 1, 0), fx(2), Material::Lambertian { albedo: gray(800_000) });
    let r = Ray::ray(v3(0, 0, 0), v3(0, 1, 0));
    let hit = p.hit(&r, Fx { v: 1000 }, fx(1_000_000)).expect("must hit");
    assert_eq!(hit.t().v, 2_000_000);
    assert_eq!(hit.p(), v3(0, 2, 0));
    assert_eq!(hit.normal(), v3(0, 1, 0));
}

#[test]
fn nearest_hit_selection_of_two_spheres() {
    let near = Sphere::sphere(v3(0, 0, -5), fx(1), Material::Lambertian { albedo: gray(100_000) });
    let far = Sphere::sphere(v3(0, 0, -10), fx(1), Material::Lambertian { albedo: gray(900_000) });
    // list the far one first so the fold has to replace it
    let world = HittableList::new(vec![Object::Sphere(far), Object::Sphere(near)]);
    let r = Ray::ray(v3(0, 0, 0), v3(0, 0, -1));
    let hit = world.hit(&r, Fx { v: 1000 }, fx(1_000_000)).expect("must hit");
    assert_eq!(hit.t().v, 4_000_000);
    match hit.material() {
        Material::Lambertian { albedo } => assert_eq!(albedo.x().v, 100_000),
        _ => panic!("wrong material"),
    }
}

#[test]
fn aabb_slab_test_accepts_and_rejects() {
    let bb = Aabb::new(v3(-1, -1, -1), v3(1, 1, 1));
    let through = Ray::ray(v3(-5, 0, 0), v3(1, 0, 0));
    assert!(bb.hit(&through, Fx { v: 1000 }, fx(1_000_000)));
    let past = Ray::ray(v3(-5, 3, 0), v3(1, 0, 0));
    assert!(!bb.hit(&past, Fx { v: 1000 }, fx(1_000_000)));
    // parallel to a slab with the origin outside it
    let parallel = Ray::ray(v3(-5, 3, 0), v3(0, 0, 1));
    assert!(!bb.hit(&parallel, Fx { v: 1000 }, fx(1_000_000)));
}

#[test]
fn rectangle_containment_test() {
    let m = Material::Lambertian { albedo: gray(730_000) };
    let rect = Rectangle::rectangle(
        v3(-1, 0, -1),
        v3(1, 0, -1),
        v3(-1, 0, 1),
        m,
        Aabb::new(v3(-1, -1, -1), v3(1, 1, 1)),
    );
    let down = Ray::ray(v3(0, 5, 0), v3(0, -1, 0));
    let hit = rect.hit(&down, Fx { v: 1000 }, fx(1_000_000)).expect("must hit");
    assert_eq!(hit.t().v, 5_000_000);
    // outside the parallelogram bounds: misses
    let off = Ray::ray(v3(3, 5, 0), v3(0, -1, 0));
    assert!(rect.hit(&off, Fx { v: 1000 }, fx(1_000_000)).is_none());
}

#[test]
fn metal_grazing_reflection_is_absorbed() {
    // an incoming ray along the normal from below reflects back below the
    // surface: with no fuzz the metal absorbs it
    let m = Material::Metal { albedo: gray(700_000), fuzz: Fx { v: 0 } };
    let rec = HitRecord {
        t: fx(1),
        p: v3(0, 0, 0),
        normal: v3(0, 1, 0),
        material: m,
    };
    let r = Ray::ray(v3(0, -1, 0), v3(0, 1, 0));
    let mut att = v3(0, 0, 0);
    let mut scattered = Ray::ray(v3(0, 0, 0), v3(0, 0, 0));
    assert!(!scatter(&m, &r, &rec, &mut att, &mut scattered));
}

#[test]
fn metal_open_reflection_scatters_mirrored() {
    let m = Material::Metal { albedo: gray(700_000), fuzz: Fx { v: 0 } };
    let rec = HitRecord {
        t: fx(1),
        p: v3(0, 0, 0),
        normal: v3(0, 1, 0),
        material: m,
    };
    // coming down at 45 degrees: (1,-1,0) reflects to (~0.707, 0.707, 0)
    let r = Ray::ray(v3(-1, 1, 0), v3(1, -1, 0));
    let mut att = v3(0, 0, 0);
    let mut scattered = Ray::ray(v3(0, 0, 0), v3(0, 0, 0));
    assert!(scatter(&m, &r, &rec, &mut att, &mut scattered));
    assert_eq!(att, gray(700_000));
    assert_eq!(scattered.origin(), v3(0, 0, 0));
    let d = scattered.direction();
    assert_eq!(d.x().v, 707_107);
    assert_eq!(d.y().v, 707_107);
    assert_eq!(d.z().v, 0);
}

#[test]
fn reflect_is_mirror_formula() {
    assert_eq!(reflect(v3(1, -1, 0), v3(0, 1, 0)), v3(1, 1, 0));
    // a direction parallel to the surface is unchanged
    assert_eq!(reflect(v3(1, 0, 0), v3(0, 1, 0)), v3(1, 0, 0));
}

#[test]
fn lambertian_always_scatters_from_the_hit_point() {
    let m = Material::Lambertian { albedo: gray(650_000) };
    let rec = HitRecord {
        t: fx(1),
        p: v3(2, 3, 4),
        normal: v3(0, 1, 0),
        material: m,
    };
    let r = Ray::ray(v3(0, 0, 0), v3(1, 1, 1));
    let mut att = v3(0, 0, 0);
    let mut scattered = Ray::ray(v3(0, 0, 0), v3(0, 0, 0));
    assert!(scatter(&m, &r, &rec, &mut att, &mut scattered));
    assert_eq!(att, gray(650_000));
    assert_eq!(scattered.origin(), v3(2, 3, 4));
    // the bounce leaves within the unit ball around the normal
    let dev = scattered.direction().sub(v3(0, 1, 0));
    assert!(dev.squared_length().v < 1_000_000);
}

#[test]
fn dielectric_is_always_absorbed() {
    let m = Material::Dielectric {};
    let rec = HitRecord {
        t: fx(1),
        p: v3(0, 0, 0),
        normal: v3(0, 1, 0),
        material: m,
    };
    let r = Ray::ray(v3(0, 0, 0), v3(0, -1, 0));
    let mut att = v3(7, 8, 9);
    let mut scattered = Ray::ray(v3(1, 2, 3), v3(4, 5, 6));
    assert!(!scatter(&m, &r, &rec, &mut att, &mut scattered));
    // the absorbed branch leaves both outputs untouched
    assert_eq!(att, v3(7, 8, 9));
    assert_eq!(scattered, Ray::ray(v3(1, 2, 3), v3(4, 5, 6)));
}

#[test]
fn emissive_emits_along_the_normal() {
    let m = Material::Emissive { emittance: v3(40, 20, 10) };
    let rec = HitRecord {
        t: fx(1),
        p: v3(1, 0, 0),
        normal: v3(0, 1, 0),
        material: m,
    };
    let r = Ray::ray(v3(0, 0, 0), v3(1, 0, 0));
    let mut att = v3(0, 0, 0);
    let mut scattered = Ray::ray(v3(0, 0, 0), v3(0, 0, 0));
    assert!(scatter(&m, &r, &rec, &mut att, &mut scattered));
    assert_eq!(att, v3(40, 20, 10));
    assert_eq!(scattered.origin(), v3(1, 0, 0));
    assert_eq!(scattered.direction(), v3(0, 1, 0));
}

#[test]
fn background_gradient_endpoints_are_exact() {
    // straight up: sky blue
    assert_eq!(background(&v3(0, 1, 0)), Vec3 {
        x: Fx { v: 500_000 },
        y: Fx { v: 700_000 },
        z: Fx { v: 1_000_000 },
    });
    // straight down: white
    assert_eq!(background(&v3(0, -1, 0)), v3(1, 1, 1));
}

#[test]
fn color_depth_zero_is_black() {
    let world = cornell_box();
    let r = Ray::ray(v3(20, 20, 0), v3(-1, 0, 0));
    assert_eq!(color(&r, &world, 0), v3(0, 0, 0));
}

#[test]
fn color_miss_returns_background() {
    let world = HittableList::new(vec![]);
    assert_eq!(color(&Ray::ray(v3(0, 0, 0), v3(0, 1, 0)), &world, 10), Vec3 {
        x: Fx { v: 500_000 },
        y: Fx { v: 700_000 },
        z: Fx { v: 1_000_000 },
    });
    assert_eq!(color(&Ray::ray(v3(0, 0, 0), v3(0, -1, 0)), &world, 10), v3(1, 1, 1));
}

#[test]
fn color_channels_never_negative() {
    let world = cornell_box();
    for dx in -2i128..3 {
        for dy in -2i128..3 {
            let r = Ray::ray(v3(20, 20, 0), v3(dx, dy, -1));
            let c = color(&r, &world, 10);
            assert!(c.x().v >= 0 && c.y().v >= 0 && c.z().v >= 0);
        }
    }
}

#[test]
fn camera_center_ray_with_zero_lens_is_deterministic() {
    // a 90 degree vertical field of view has half-height tangent exactly one
    let cam = Camera::new(
        v3(40, 20, 0),
        v3(0, 20, 0),
        v3(0, 1, 0),
        fx(1),
        Fx { v: 1_500_000 },
    );
    let half = Fx { v: 500_000 };
    let r1 = cam.get_ray(half, half);
    let r2 = cam.get_ray(half, half);
    // deterministic: two draws agree, and the ray leaves the eye straight
    // toward the viewport center
    assert_eq!(r1, r2);
    assert_eq!(r1.origin(), v3(40, 20, 0));
    assert_eq!(r1.direction(), v3(-1, 0, 0));
}

#[test]
fn random_in_unit_sphere_is_inside() {
    for _ in 0..50 {
        let p = random_in_unit_sphere();
        assert!(p.squared_length().v < 1_000_000);
        assert!(p.x().v.abs() <= 1_000_000);
    }
}

#[test]
fn vec3_random_is_a_fractional_color() {
    for _ in 0..20 {
        let c = Vec3::random();
        assert!(c.x().v >= 0 && c.x().v < 1_000_000);
        assert!(c.y().v >= 0 && c.y().v < 1_000_000);
        assert!(c.z().v >= 0 && c.z().v < 1_000_000);
    }
}

#[test]
fn colorize_floors_to_whole_units() {
    let mut c = Vec3 {
        x: Fx { v: 254_990_000 },
        y: Fx { v: 1_500_000 },
        z: Fx { v: 999_999 },
    };
    c.colorize();
    assert_eq!(c, v3(254, 1, 0));
}

#[test]
fn hit_record_accessors_roundtrip() {
    let mut rec = HitRecord::default();
    assert_eq!(rec.t().v, 0);
    rec.set_t(fx(7));
    rec.set_p(v3(1, 2, 3));
    rec.set_normal(v3(0, 0, 1));
    rec.set_material(Material::Metal { albedo: gray(1_000_000), fuzz: Fx { v: 200_000 } });
    assert_eq!(rec.t(), fx(7));
    assert_eq!(rec.p(), v3(1, 2, 3));
    assert_eq!(rec.normal(), v3(0, 0, 1));
    match rec.material() {
        Material::Metal { albedo, fuzz } => {
            assert_eq!(albedo, gray(1_000_000));
            assert_eq!(fuzz.v, 200_000);
        },
        _ => panic!("wrong material"),
    }
}

#[test]
fn scenes_are_well_formed() {
    assert_eq!(cornell_box().objects.len(), 6);
    assert_eq!(plane_scene().objects.len(), 3);
    // the grid scene always holds the ground sphere plus two per cell at least
    let grid = random_scene();
    assert!(grid.objects.len() >= 1 + 2 * 22 * 22);
    // the two fixed spheres are re-pushed once per grid cell
    let mut n_left = 0;
    let mut n_right = 0;
    for o in &grid.objects {
        if let Object::Sphere(s) = o {
            if s.center == v3(-4, 1, 0) {
                n_left += 1;
            }
            if s.center == v3(4, 1, 0) {
                n_right += 1;
            }
            // every metal in the scene keeps its documented ranges
            if let Material::Metal { albedo, fuzz } = s.material {
                assert!(fuzz.v >= 0 && fuzz.v <= 500_000);
                assert!(albedo.x.v >= 500_000 && albedo.x.v < 1_000_000);
            }
        }
    }
    assert_eq!(n_left, 484);
    assert_eq!(n_right, 484);
}

#[test]
fn render_pixel_produces_whole_nonnegative_channels() {
    let world = cornell_box();
    let cam = Camera::new(
        v3(40, 20, 0),
        v3(0, 20, 0),
        v3(0, 1, 0),
        fx(1),
        Fx { v: 1_500_000 },
    );
    let px = render_pixel(&cam, &world, 3, 2, 8, 6, 4, 5);
    assert!(px.x().v >= 0 && px.x().v % 1_000_000 == 0);
    assert!(px.y().v >= 0 && px.y().v % 1_000_000 == 0);
    assert!(px.z().v >= 0 && px.z().v % 1_000_000 == 0);
}

#[test]
fn render_produces_the_requested_grid() {
    let world = plane_scene();
    let cam = Camera::new(
        v3(0, 1, 3),
        v3(0, 0, -1),
        v3(0, 1, 0),
        fx(1),
        Fx { v: 1_500_000 },
    );
    let img = render(&world, &cam, 4, 3, 2, 5);
    assert_eq!(img.len(), 3);
    for row in &img {
        assert_eq!(row.len(), 4);
        for px in row {
            assert!(px.x().v >= 0 && px.y().v >= 0 && px.z().v >= 0);
        }
    }
}

#[test]
fn metal_with_degenerate_direction_is_absorbed() {
    let m = Material::Metal { albedo: gray(700_000), fuzz: Fx { v: 0 } };
    let rec = HitRecord {
        t: fx(1),
        p: v3(0, 0, 0),
        normal: v3(0, 1, 0),
        material: m,
    };
    // a vanishing incoming direction cannot be mirrored
    let r = Ray::ray(v3(0, -1, 0), v3(0, 0, 0));
    let mut att = v3(0, 0, 0);
    let mut scattered = Ray::ray(v3(0, 0, 0), v3(0, 0, 0));
    assert!(!scatter(&m, &r, &rec, &mut att, &mut scattered));
}

#[test]
fn add_assign_accumulates() {
    let mut acc = v3(1, 2, 3);
    acc.add_assign(v3(4, 5, 6));
    assert_eq!(acc, v3(5, 7, 9));
}

#[test]
fn cornell_box_holds_the_documented_walls() {
    let world = cornell_box();
    match &world.objects[0] {
        Object::Plane(p) => {
            assert_eq!(p.normal, v3(0, 1, 0));
            assert_eq!(p.distance.v, 0);
            match p.material {
                Material::Lambertian { albedo } => assert_eq!(albedo, gray(730_000)),
                _ => panic!("floor is not diffuse"),
            }
        }
        _ => panic!("first object is not the floor plane"),
    }
    match &world.objects[5] {
        Object::Sphere(s) => {
            assert_eq!(s.center, v3(10, 10, 0));
            assert_eq!(s.radius, fx(5));
        }
        _ => panic!("last object is not the sphere"),
    }
}

#[test]
fn sphere_with_zero_radius_reports_nothing() {
    let s = Sphere::sphere(v3(0, 0, -5), Fx { v: 0 }, Material::Dielectric {});
    let r = Ray::ray(v3(0, 0, 0), v3(0, 0, -1));
    assert!(s.hit(&r, Fx { v: 1000 }, fx(1_000_000)).is_none());
}
