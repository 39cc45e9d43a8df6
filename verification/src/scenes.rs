//! Hard-coded example scenes, built as literal primitive lists.

use vstd::prelude::*;
use crate::fx::{Fx, SCALE, abs_i, fxmul_s, fx_wf};
use crate::vec3::{Vec3, V3i, v3, v3_wf, in_ball, dot_s};
use crate::material::{Material, mat_wf};
use crate::sphere::Sphere;
use crate::plane::Plane;
use crate::hittable_list::{HittableList, Object, object_wf, object_material, list_wf};
use crate::rng::random_fraction;

verus! {

/// The diffuse white of the box walls.
pub open spec fn is_cornell_white(m: Material) -> bool {
    m matches Material::Lambertian { albedo } && albedo@ == v3(730_000, 730_000, 730_000)
}

/// A white-walled box of five planes with a red sphere at its center: the
/// floor and roof, the back wall and the two side walls, then the sphere.
pub fn cornell_box() -> (r: HittableList)
    ensures
        list_wf(r),
        r.objects@.len() == 6,
        r.objects@[0] matches Object::Plane(p) && p.normal@ == v3(0, SCALE as int, 0)
            && p.distance@ == 0 && is_cornell_white(p.material),
        r.objects@[1] matches Object::Plane(p) && p.normal@ == v3(0, SCALE as int, 0)
            && p.distance@ == 40 * SCALE && is_cornell_white(p.material),
        r.objects@[2] matches Object::Plane(p) && p.normal@ == v3(SCALE as int, 0, 0)
            && p.distance@ == 0 && is_cornell_white(p.material),
        r.objects@[3] matches Object::Plane(p) && p.normal@ == v3(0, 0, SCALE as int)
            && p.distance@ == 20 * SCALE && is_cornell_white(p.material),
        r.objects@[4] matches Object::Plane(p) && p.normal@ == v3(0, 0, SCALE as int)
            && p.distance@ == -20 * SCALE && is_cornell_white(p.material),
        r.objects@[5] matches Object::Sphere(s) && s.center@ == v3(
            10 * SCALE,
            10 * SCALE,
            0,
        ) && s.radius@ == 5 * SCALE && (s.material matches Material::Lambertian { albedo }
            && albedo@ == v3(650_000, 50_000, 50_000)),
{
    let mut list: Vec<Object> = Vec::new();

    let red = Material::Lambertian {
        albedo: Vec3 { x: Fx { v: 650_000 }, y: Fx { v: 50_000 }, z: Fx { v: 50_000 } },
    };
    let white = Material::Lambertian {
        albedo: Vec3 { x: Fx { v: 730_000 }, y: Fx { v: 730_000 }, z: Fx { v: 730_000 } },
    };

    let up = Vec3 { x: Fx { v: 0 }, y: Fx { v: 1_000_000 }, z: Fx { v: 0 } };
    let out_x = Vec3 { x: Fx { v: 1_000_000 }, y: Fx { v: 0 }, z: Fx { v: 0 } };
    let out_z = Vec3 { x: Fx { v: 0 }, y: Fx { v: 0 }, z: Fx { v: 1_000_000 } };

    // the floor
    list.push(Object::Plane(Plane::plane(up, Fx { v: 0 }, white)));
    // the roof
    list.push(Object::Plane(Plane::plane(up, Fx { v: 40_000_000 }, white)));
    // the back wall
    list.push(Object::Plane(Plane::plane(out_x, Fx { v: 0 }, white)));
    // the left wall
    list.push(Object::Plane(Plane::plane(out_z, Fx { v: 20_000_000 }, white)));
    // the right wall
    list.push(Object::Plane(Plane::plane(out_z, Fx { v: -20_000_000 }, white)));
    // the center sphere
    list.push(
        Object::Sphere(
            Sphere::sphere(
                Vec3 { x: Fx { v: 10_000_000 }, y: Fx { v: 10_000_000 }, z: Fx { v: 0 } },
                Fx { v: 5_000_000 },
                red,
            ),
        ),
    );

    HittableList::new(list)
}

/// Two diffuse spheres over an infinite floor plane.
pub fn plane_scene() -> (r: HittableList)
    ensures
        list_wf(r),
        r.objects@.len() == 3,
        r.objects@[0] matches Object::Sphere(s) && s.center@ == v3(0, 0, -(SCALE as int))
            && s.radius@ == 500_000,
        r.objects@[1] matches Object::Sphere(s) && s.center@ == v3(
            0,
            -100_500_000,
            -(SCALE as int),
        ) && s.radius@ == 100 * SCALE,
        r.objects@[2] matches Object::Plane(p) && p.normal@ == v3(0, SCALE as int, 0)
            && p.distance@ == 2 * SCALE,
{
    let mut list: Vec<Object> = Vec::new();

    list.push(
        Object::Sphere(
            Sphere::sphere(
                Vec3 { x: Fx { v: 0 }, y: Fx { v: 0 }, z: Fx { v: -1_000_000 } },
                Fx { v: 500_000 },
                Material::Lambertian {
                    albedo: Vec3 { x: Fx { v: 800_000 }, y: Fx { v: 800_000 }, z: Fx { v: 300_000 } },
                },
            ),
        ),
    );
    list.push(
        Object::Sphere(
            Sphere::sphere(
                Vec3 { x: Fx { v: 0 }, y: Fx { v: -100_500_000 }, z: Fx { v: -1_000_000 } },
                Fx { v: 100_000_000 },
                Material::Lambertian {
                    albedo: Vec3 { x: Fx { v: 800_000 }, y: Fx { v: 800_000 }, z: Fx { v: 0 } },
                },
            ),
        ),
    );
    list.push(
        Object::Plane(
            Plane::plane(
                Vec3 { x: Fx { v: 0 }, y: Fx { v: 1_000_000 }, z: Fx { v: 0 } },
                Fx { v: 2_000_000 },
                Material::Lambertian {
                    albedo: Vec3 { x: Fx { v: 800_000 }, y: Fx { v: 800_000 }, z: Fx { v: 0 } },
                },
            ),
        ),
    );

    HittableList::new(list)
}

/// The large gray ground sphere of the grid scene.
pub open spec fn is_ground(o: Object) -> bool {
    o matches Object::Sphere(s) && s.center@ == v3(0, -1_000_000_000, 0) && s.radius@ == 1000
        * SCALE && (s.material matches Material::Lambertian { albedo } && albedo@ == v3(
        500_000,
        500_000,
        500_000,
    ))
}

/// The fixed diffuse sphere the grid scene repeats once per cell.
pub open spec fn is_fixed_diffuse(o: Object) -> bool {
    o matches Object::Sphere(s) && s.center@ == v3(-4 * SCALE, SCALE as int, 0) && s.radius@
        == SCALE && (s.material matches Material::Lambertian { albedo } && albedo@ == v3(
        400_000,
        400_000,
        100_000,
    ))
}

/// The fixed polished-metal sphere the grid scene repeats once per cell.
pub open spec fn is_fixed_metal(o: Object) -> bool {
    o matches Object::Sphere(s) && s.center@ == v3(4 * SCALE, SCALE as int, 0) && s.radius@
        == SCALE && (s.material matches Material::Metal { albedo, fuzz } && albedo@ == v3(
        700_000,
        600_000,
        500_000,
    ) && fuzz@ == 0)
}

/// A randomly placed grid sphere: a fifth of a unit in radius, centered a
/// fifth of a unit above the ground within the grid span; diffuse with
/// fractional albedo, or metal with albedo channels in `[0.5, 1)` and
/// roughness in `[0, 0.5)`.
pub open spec fn is_grid_sphere(o: Object) -> bool {
    o matches Object::Sphere(s) && s.radius@ == 200_000 && s.center@.y == 200_000 && abs_i(
        s.center@.x,
    ) <= 12 * SCALE && abs_i(s.center@.z) <= 12 * SCALE && (match s.material {
        Material::Lambertian { albedo } => {
            0 <= albedo@.x < SCALE && 0 <= albedo@.y < SCALE && 0 <= albedo@.z < SCALE
        },
        Material::Metal { albedo, fuzz } => {
            500_000 <= albedo@.x < SCALE && 500_000 <= albedo@.y < SCALE && 500_000 <= albedo@.z
                < SCALE && 0 <= fuzz@ < 500_000
        },
        _ => false,
    })
}

/// Everything the grid scene ever holds: one of its four sphere shapes, each
/// scene-bounded with a well-formed material.
pub open spec fn grid_scene_obj(o: Object) -> bool {
    &&& object_wf(o)
    &&& mat_wf(object_material(o))
    &&& is_ground(o) || is_fixed_diffuse(o) || is_fixed_metal(o) || is_grid_sphere(o)
}

/// How many members of the list are the fixed diffuse sphere.
pub open spec fn count_fixed_diffuse(s: Seq<Object>) -> int
    decreases s.len(),
{
    if s.len() == 0 {
        0
    } else {
        count_fixed_diffuse(s.drop_last()) + if is_fixed_diffuse(s.last()) {
            1int
        } else {
            0
        }
    }
}

/// How many members of the list are the fixed metal sphere.
pub open spec fn count_fixed_metal(s: Seq<Object>) -> int
    decreases s.len(),
{
    if s.len() == 0 {
        0
    } else {
        count_fixed_metal(s.drop_last()) + if is_fixed_metal(s.last()) {
            1int
        } else {
            0
        }
    }
}

/// Appending one grid-scene object: the characterization carries over, the
/// counts step by whether the newcomer matches, and the head stays.
proof fn lemma_grid_push(s: Seq<Object>, x: Object)
    requires
        forall|i: int| 0 <= i < s.len() ==> grid_scene_obj(#[trigger] s[i]),
        grid_scene_obj(x),
    ensures
        forall|i: int| 0 <= i < s.push(x).len() ==> grid_scene_obj(#[trigger] s.push(x)[i]),
        count_fixed_diffuse(s.push(x)) == count_fixed_diffuse(s) + if is_fixed_diffuse(x) {
            1int
        } else {
            0
        },
        count_fixed_metal(s.push(x)) == count_fixed_metal(s) + if is_fixed_metal(x) {
            1int
        } else {
            0
        },
        s.len() > 0 ==> s.push(x)[0] == s[0],
{
    assert(s.push(x).drop_last() =~= s);
    assert(s.push(x).last() == x);
    assert forall|i: int| 0 <= i < s.push(x).len() implies grid_scene_obj(
        #[trigger] s.push(x)[i],
    ) by {
        if i < s.len() {
            assert(s.push(x)[i] == s[i]);
        } else {
            assert(s.push(x)[i] == x);
        }
    }
}

/// The metal albedo draw `0.5 * (1 + f)` lands in `[0.5, 1)` for a fraction
/// `f`, and the roughness draw `0.5 * f` in `[0, 0.5)`.
proof fn lemma_metal_draw_range(f: int)
    requires
        0 <= f < SCALE,
    ensures
        500_000 <= fxmul_s(500_000, (SCALE as int) + f) < SCALE,
        0 <= fxmul_s(500_000, f) < 500_000,
{
    assert(500_000 * ((SCALE as int) + f) >= (SCALE as int) * 500_000) by (nonlinear_arith)
        requires
            f >= 0,
    ;
    crate::fx::lemma_tdiv_multiple(500_000, SCALE as int);
    crate::fx::lemma_tdiv_monotone(
        (SCALE as int) * 500_000,
        500_000 * ((SCALE as int) + f),
        SCALE as int,
    );
    crate::vec3::lemma_fxmul_bound(500_000, (SCALE as int) + f, 500_000, 2 * SCALE - 1);
    assert(500_000int * 1_999_999 == 999_999_500_000) by (nonlinear_arith);
    assert(999_999_500_000int / 1_000_000 == 999_999);
    crate::render::lemma_fxmul_nonneg(500_000, (SCALE as int) + f);
    crate::vec3::lemma_fxmul_bound(500_000, f, 500_000, SCALE - 1 as int);
    assert(500_000int * 999_999 == 499_999_500_000) by (nonlinear_arith);
    assert(499_999_500_000int / 1_000_000 == 499_999);
    crate::render::lemma_fxmul_nonneg(500_000, f);
}

/// A large ground sphere and a grid of small spheres with randomly drawn
/// positions and materials, diffuse or metal by a coin weighted four to one;
/// two fixed spheres are re-pushed once per grid cell, as the scene has
/// always been built.
pub fn random_scene() -> (r: HittableList)
    ensures
        list_wf(r),
        r.objects@.len() >= 969,
        is_ground(r.objects@[0]),
        forall|i: int| 0 <= i < r.objects@.len() ==> grid_scene_obj(#[trigger] r.objects@[i]),
        count_fixed_diffuse(r.objects@) == 484,
        count_fixed_metal(r.objects@) == 484,
{
    let mut list: Vec<Object> = Vec::new();

    let ground_sphere = Object::Sphere(
        Sphere::sphere(
            Vec3 { x: Fx { v: 0 }, y: Fx { v: -1_000_000_000 }, z: Fx { v: 0 } },
            Fx { v: 1_000_000_000 },
            Material::Lambertian {
                albedo: Vec3 { x: Fx { v: 500_000 }, y: Fx { v: 500_000 }, z: Fx { v: 500_000 } },
            },
        ),
    );
    let ghost g0 = ground_sphere;
    list.push(ground_sphere);
    proof {
        lemma_grid_push(Seq::empty(), g0);
    }

    let mut a: i32 = -11;
    while a < 11
        invariant
            -11 <= a <= 11,
            forall|i: int| 0 <= i < list@.len() ==> grid_scene_obj(#[trigger] list@[i]),
            list@.len() >= 1 + (a + 11) * 44,
            is_ground(list@[0]),
            count_fixed_diffuse(list@) == (a + 11) * 22,
            count_fixed_metal(list@) == (a + 11) * 22,
        decreases 11 - a,
    {
        let mut b: i32 = -11;
        while b < 11
            invariant
                -11 <= a < 11,
                -11 <= b <= 11,
                forall|i: int| 0 <= i < list@.len() ==> grid_scene_obj(#[trigger] list@[i]),
                list@.len() >= 1 + (a + 11) * 44 + (b + 11) * 2,
                is_ground(list@[0]),
                count_fixed_diffuse(list@) == (a + 11) * 22 + (b + 11),
                count_fixed_metal(list@) == (a + 11) * 22 + (b + 11),
            decreases 11 - b,
        {
            let choose_mat = random_fraction();
            let nine_tenths = Fx { v: 900_000 };
            let fa = random_fraction();
            let fb = random_fraction();
            let jx = nine_tenths.mul(fa);
            let jz = nine_tenths.mul(fb);
            proof {
                crate::vec3::lemma_fxmul_bound(900_000, fa@, 900_000, 1_000_000);
                crate::vec3::lemma_fxmul_bound(900_000, fb@, 900_000, 1_000_000);
            }
            let center = Vec3 {
                x: Fx { v: (a as i128) * 1_000_000 + jx.v },
                y: Fx { v: 200_000 },
                z: Fx { v: (b as i128) * 1_000_000 + jz.v },
            };
            let anchor = Vec3 { x: Fx { v: 4_000_000 }, y: Fx { v: 200_000 }, z: Fx { v: 0 } };
            if center.sub(anchor).length().v > 900_000 {
                if choose_mat.v < 800_000 {
                    // diffuse
                    let o = Object::Sphere(
                        Sphere::sphere(
                            center,
                            Fx { v: 200_000 },
                            Material::Lambertian { albedo: Vec3::random() },
                        ),
                    );
                    let ghost og = o;
                    let ghost prev = list@;
                    list.push(o);
                    proof {
                        lemma_grid_push(prev, og);
                    }
                } else {
                    // metal
                    let half = Fx { v: 500_000 };
                    let one = Fx { v: 1_000_000 };
                    let f1 = random_fraction();
                    let f2 = random_fraction();
                    let f3 = random_fraction();
                    let f4 = random_fraction();
                    let albedo = Vec3 {
                        x: half.mul(one.add(f1)),
                        y: half.mul(one.add(f2)),
                        z: half.mul(one.add(f3)),
                    };
                    let fuzz = half.mul(f4);
                    proof {
                        lemma_metal_draw_range(f1@);
                        lemma_metal_draw_range(f2@);
                        lemma_metal_draw_range(f3@);
                        lemma_metal_draw_range(f4@);
                    }
                    let o = Object::Sphere(
                        Sphere::sphere(center, Fx { v: 200_000 }, Material::Metal {
                            albedo,
                            fuzz,
                        }),
                    );
                    let ghost og = o;
                    let ghost prev = list@;
                    list.push(o);
                    proof {
                        lemma_grid_push(prev, og);
                    }
                }
            }
            let left = Object::Sphere(
                Sphere::sphere(
                    Vec3 { x: Fx { v: -4_000_000 }, y: Fx { v: 1_000_000 }, z: Fx { v: 0 } },
                    Fx { v: 1_000_000 },
                    Material::Lambertian {
                        albedo: Vec3 {
                            x: Fx { v: 400_000 },
                            y: Fx { v: 400_000 },
                            z: Fx { v: 100_000 },
                        },
                    },
                ),
            );
            let ghost lg = left;
            let ghost prev_l = list@;
            list.push(left);
            proof {
                lemma_grid_push(prev_l, lg);
            }
            let right = Object::Sphere(
                Sphere::sphere(
                    Vec3 { x: Fx { v: 4_000_000 }, y: Fx { v: 1_000_000 }, z: Fx { v: 0 } },
                    Fx { v: 1_000_000 },
                    Material::Metal {
                        albedo: Vec3 {
                            x: Fx { v: 700_000 },
                            y: Fx { v: 600_000 },
                            z: Fx { v: 500_000 },
                        },
                        fuzz: Fx { v: 0 },
                    },
                ),
            );
            let ghost rg = right;
            let ghost prev_r = list@;
            list.push(right);
            proof {
                lemma_grid_push(prev_r, rg);
            }
            b = b + 1;
        }
        a = a + 1;
    }

    HittableList::new(list)
}

} // verus!
