//! Rays through small scenes. The numbers of the scene are kept here, in
//! floating point; the library decides what the rays do.

use raytracer::camera::Camera;
use raytracer::interaction::{Contact, Side, Step, FULL_TRANSMISSION};
use raytracer::ray::Ray;
use raytracer::sop::{BounceResult, SOP};
use raytracer::surface::{pick_closest_intersection, Crossing};
use raytracer::trace::process_ray_data;
use raytracer::trace_rays;

type V3 = [f64; 3];

const TOLERANCE: f64 = 1e-5;

fn add(a: V3, b: V3) -> V3 {
    [a[0] + b[0], a[1] + b[1], a[2] + b[2]]
}

fn sub(a: V3, b: V3) -> V3 {
    [a[0] - b[0], a[1] - b[1], a[2] - b[2]]
}

fn scale(a: V3, k: f64) -> V3 {
    [a[0] * k, a[1] * k, a[2] * k]
}

fn dot(a: V3, b: V3) -> f64 {
    a[0] * b[0] + a[1] * b[1] + a[2] * b[2]
}

fn cross(a: V3, b: V3) -> V3 {
    [a[1] * b[2] - a[2] * b[1], a[2] * b[0] - a[0] * b[2], a[0] * b[1] - a[1] * b[0]]
}

fn normalize(a: V3) -> V3 {
    let norm = dot(a, a).sqrt();
    [a[0] / norm, a[1] / norm, a[2] / norm]
}

/// The key of a squared distance: its bits, which order as the numbers do.
fn key(squared: f64) -> u64 {
    squared.to_bits()
}

#[derive(Clone, Copy)]
struct Medium {
    ior: f64,
    abs: [f64; 3],
}

#[derive(Clone, Debug)]
struct Beam {
    origin: V3,
    direction: V3,
    abs: [f64; 3],
    normal: V3,
}

fn beam(origin: V3, direction: V3) -> Beam {
    Beam { origin, direction, abs: [0.0; 3], normal: [0.0; 3] }
}

#[derive(Clone, Copy)]
enum Shape {
    Plane { origin: V3, normal: V3 },
    Sphere { center: V3, radius: f64 },
    Rectangle { origin: V3, normal: V3, orientation: V3, size: [f64; 2] },
}

fn plane_hit(origin: V3, normal: V3, beam: &Beam) -> Option<V3> {
    let along = dot(beam.direction, normal);
    if along.abs() <= f64::EPSILON {
        return None;
    }
    let point = add(
        beam.origin,
        scale(beam.direction, dot(normal, sub(origin, beam.origin)) / along),
    );
    let on_plane = dot(normal, sub(origin, beam.origin)).abs() <= TOLERANCE;
    if !on_plane && dot(sub(point, beam.origin), beam.direction) >= 0.0 {
        Some(point)
    } else {
        None
    }
}

impl Shape {
    fn intersection(&self, beam: &Beam) -> Option<V3> {
        match *self {
            Shape::Plane { origin, normal } => plane_hit(origin, normal, beam),
            Shape::Rectangle { origin, normal, orientation, size } => {
                let point = plane_hit(origin, normal, beam)?;
                let from_origin = sub(point, origin);
                let l0 = dot(from_origin, orientation).abs();
                let l1 = dot(from_origin, cross(normal, orientation)).abs();
                if l0 <= size[0] / 2.0 && l1 <= size[1] / 2.0 {
                    Some(point)
                } else {
                    None
                }
            }
            Shape::Sphere { center, radius } => {
                let u = normalize(beam.direction);
                let to_origin = sub(beam.origin, center);
                let alpha = -dot(u, to_origin);
                let delta = alpha * alpha - (dot(to_origin, to_origin) - radius * radius);
                let mut points: Vec<V3> = Vec::new();
                if delta >= 0.0 {
                    if delta.abs() <= f64::EPSILON {
                        points.push(add(beam.origin, scale(u, alpha)));
                    } else {
                        points.push(add(beam.origin, scale(u, alpha - delta.sqrt())));
                        points.push(add(beam.origin, scale(u, alpha + delta.sqrt())));
                    }
                }
                let crossings: Vec<Crossing<V3>> = points
                    .iter()
                    .map(|p| {
                        let d = sub(*p, beam.origin);
                        Crossing {
                            point: *p,
                            ahead: dot(d, beam.direction) >= 0.0,
                            key: key(dot(d, d)),
                        }
                    })
                    .collect();
                pick_closest_intersection(&crossings, key(TOLERANCE))
            }
        }
    }

    fn normal_at(&self, point: V3) -> V3 {
        match *self {
            Shape::Plane { normal, .. } => normalize(normal),
            Shape::Rectangle { normal, .. } => normalize(normal),
            Shape::Sphere { center, .. } => normalize(sub(point, center)),
        }
    }
}

#[derive(Clone, Copy)]
struct Surface {
    shape: Shape,
    sop: SOP,
    above: usize,
    below: usize,
}

#[derive(Clone)]
struct Scene {
    surfaces: Vec<Surface>,
    media: Vec<Medium>,
}

impl Scene {
    fn intersect(&self, beam: &Beam, surface: usize) -> Option<(V3, u64)> {
        self.surfaces[surface].shape.intersection(beam).map(|p| {
            let d = sub(p, beam.origin);
            (p, key(dot(d, d)))
        })
    }

    fn arrive(&self, beam: &Beam, vop: usize, point: V3, key: u64, surface: usize) -> (Beam, Contact) {
        let surface = &self.surfaces[surface];
        let distance = f64::from_bits(key).sqrt();
        let medium = self.media[vop];
        let mut abs = beam.abs;
        for c in 0..3 {
            abs[c] += medium.abs[c] * distance;
        }
        let normal = surface.shape.normal_at(point);
        let side = if dot(normal, beam.direction) <= 0.0 { Side::Above } else { Side::Below };
        let (near, far, facing) = match side {
            Side::Above => (surface.above, surface.below, normal),
            Side::Below => (surface.below, surface.above, scale(normal, -1.0)),
        };
        let ratio = self.media[near].ior / self.media[far].ior;
        let cos_i = -dot(facing, normalize(beam.direction));
        let sin_sq_t = ratio * ratio * (1.0 - cos_i * cos_i);
        let mut transmission = [0u64; 3];
        for c in 0..3 {
            transmission[c] = ((-abs[c]).exp() * FULL_TRANSMISSION as f64).round() as u64;
        }
        let contact = Contact {
            sop: surface.sop,
            side,
            vop_above: surface.above,
            vop_below: surface.below,
            beyond_critical: sin_sq_t >= 1.0,
            transmission,
        };
        (Beam { origin: point, direction: beam.direction, abs, normal }, contact)
    }

    fn bend(&self, beam: &Beam, step: Step) -> Beam {
        let mut bent = beam.clone();
        match step {
            Step::Reflected { reversed } => {
                let n = if reversed { scale(beam.normal, -1.0) } else { beam.normal };
                bent.direction = add(
                    beam.direction,
                    scale(n, 2.0 * dot(beam.direction, n).abs() / dot(n, n)),
                );
            }
            Step::Refracted { reversed, leaving, entering } => {
                let n = if reversed { scale(beam.normal, -1.0) } else { beam.normal };
                let ratio = self.media[leaving].ior / self.media[entering].ior;
                let d = normalize(beam.direction);
                let cos_i = -dot(n, d);
                let sin_sq_t = ratio * ratio * (1.0 - cos_i * cos_i);
                bent.direction =
                    add(scale(d, ratio), scale(n, ratio * cos_i - (1.0 - sin_sq_t).sqrt()));
            }
            _ => {}
        }
        bent
    }

    fn launch(&self, ray: &mut Ray<Beam>) -> BounceResult {
        ray.launch(
            self.surfaces.len(),
            |b: &Beam, s: usize| self.intersect(b, s),
            |b: &Beam, vop: usize, p: V3, k: u64, s: usize| self.arrive(b, vop, p, k, s),
            |b: &Beam, step: Step| self.bend(b, step),
            1000,
        )
    }

    fn trace(&self, rays: Vec<Ray<Beam>>) -> (Vec<Ray<Beam>>, Vec<Ray<Beam>>) {
        match trace_rays(
            rays,
            self.surfaces.len(),
            |b: &Beam, s: usize| self.intersect(b, s),
            |b: &Beam, vop: usize, p: V3, k: u64, s: usize| self.arrive(b, vop, p, k, s),
            |b: &Beam, step: Step| self.bend(b, step),
            1000,
        ) {
            Ok(traced) => traced,
            Err(e) => panic!("media disagree: {:?}", e),
        }
    }
}

fn air() -> Medium {
    Medium { ior: 1.0, abs: [0.0; 3] }
}

fn one_surface(shape: Shape, sop: SOP) -> Scene {
    Scene { surfaces: vec![Surface { shape, sop, above: 0, below: 0 }], media: vec![air()] }
}

fn unit_sphere() -> Shape {
    Shape::Sphere { center: [0.0, 0.0, 0.0], radius: 1.0 }
}

fn xy_plane() -> Shape {
    Shape::Plane { origin: [0.0, 0.0, 0.0], normal: [0.0, 0.0, 1.0] }
}

fn xy_square() -> Shape {
    Shape::Rectangle {
        origin: [0.0, 0.0, 0.0],
        normal: [0.0, 0.0, 1.0],
        orientation: [0.0, 1.0, 0.0],
        size: [2.0, 2.0],
    }
}

fn downwards_ray() -> Ray<Beam> {
    Ray::new(beam([0.0, 0.0, 10.0], [0.0, 0.0, -1.0]), 0, 0)
}

#[test]
fn ray_counted_ray() {
    let mut ray = downwards_ray();
    let scene = one_surface(xy_plane(), SOP::Light(255, 255, 255));
    assert_eq!(scene.launch(&mut ray), BounceResult::Count(255, 255, 255));
}

#[test]
fn ray_killed_at_dark_plane() {
    let mut ray = downwards_ray();
    let scene = one_surface(xy_plane(), SOP::Dark);
    assert_eq!(scene.launch(&mut ray), BounceResult::Kill);
}

#[test]
fn ray_killed_no_more_intersections() {
    let mut ray = downwards_ray();
    let scene = one_surface(xy_plane(), SOP::Reflect);
    assert_eq!(scene.launch(&mut ray), BounceResult::Kill);
}

#[test]
fn ray_bounce_tests_counted_ray() {
    for shape in [unit_sphere(), xy_plane(), xy_square()] {
        let mut ray = downwards_ray();
        let scene = one_surface(shape, SOP::Light(255, 255, 255));
        assert_eq!(scene.launch(&mut ray), BounceResult::Count(255, 255, 255));
    }
}

#[test]
fn ray_bounce_tests_killed_ray_at_dark_plane() {
    for shape in [unit_sphere(), xy_plane()] {
        let mut ray = downwards_ray();
        let scene = one_surface(shape, SOP::Dark);
        assert_eq!(scene.launch(&mut ray), BounceResult::Kill);
    }
}

#[test]
fn ray_bounce_tests_killed_ray_at_dark_rectangle() {
    let mut ray = downwards_ray();
    let scene = one_surface(xy_square(), SOP::Dark);
    assert_eq!(scene.launch(&mut ray), BounceResult::Kill);
}

#[test]
fn ray_bounce_tests_killed_ray_no_more_intersections() {
    for shape in [unit_sphere(), xy_plane(), xy_square()] {
        let mut ray = downwards_ray();
        let scene = one_surface(shape, SOP::Reflect);
        assert_eq!(scene.launch(&mut ray), BounceResult::Kill);
    }
}

#[test]
fn ray_lifetime_tests_counted_ray() {
    for shape in [unit_sphere(), xy_plane(), xy_square()] {
        let mut ray = downwards_ray();
        let scene = one_surface(shape, SOP::Light(255, 255, 255));
        assert_eq!(scene.launch(&mut ray), BounceResult::Count(255, 255, 255));
        assert_eq!(ray.result, Some([255, 255, 255]));
    }
}

#[test]
fn ray_lifetime_tests_killed_ray_at_dark_plane() {
    for shape in [unit_sphere(), xy_plane()] {
        let mut ray = downwards_ray();
        let scene = one_surface(shape, SOP::Dark);
        assert_eq!(scene.launch(&mut ray), BounceResult::Kill);
        assert_eq!(ray.result, Some([0, 0, 0]));
    }
}

#[test]
fn ray_lifetime_tests_killed_ray_at_dark_rectangle() {
    let mut ray = downwards_ray();
    let scene = one_surface(xy_square(), SOP::Dark);
    assert_eq!(scene.launch(&mut ray), BounceResult::Kill);
}

#[test]
fn ray_lifetime_tests_killed_ray_no_more_intersections() {
    for shape in [unit_sphere(), xy_plane(), xy_square()] {
        let mut ray = downwards_ray();
        let scene = one_surface(shape, SOP::Reflect);
        assert_eq!(scene.launch(&mut ray), BounceResult::Kill);
    }
}

/// Unit sphere that reflects, air on both sides: a ray from (1, 0, 2)
/// along (-1, 0, -1) meets it at (0, 0, 1) and leaves along (-1, 0, 1).
#[test]
fn reflection_at_unit_sphere() {
    let scene = one_surface(unit_sphere(), SOP::Reflect);
    let start = beam([1.0, 0.0, 2.0], [-1.0, 0.0, -1.0]);
    let (point, k) = scene.intersect(&start, 0).unwrap();
    assert!(dot(sub(point, [0.0, 0.0, 1.0]), sub(point, [0.0, 0.0, 1.0])) <= TOLERANCE);
    let (moved, contact) = scene.arrive(&start, 0, point, k, 0);
    let mut ray = Ray::new(start, 0, 0);
    assert_eq!(ray.bounce_unchecked(&contact), BounceResult::Continue);
    assert_eq!(ray.vop, 0);
    let step = raytracer::interaction::interact(0, &contact);
    assert_eq!(step, Step::Reflected { reversed: false });
    let bent = scene.bend(&moved, step);
    let gap = sub(normalize(bent.direction), normalize([-1.0, 0.0, 1.0]));
    assert!(dot(gap, gap) <= TOLERANCE);
}

/// A ray that leaves glass for air beyond the critical angle is reflected
/// and stays in the glass.
#[test]
fn total_internal_reflection_keeps_medium() {
    let scene = Scene {
        surfaces: vec![Surface { shape: xy_plane(), sop: SOP::Refract, above: 0, below: 1 }],
        media: vec![air(), Medium { ior: 1.5, abs: [0.0; 3] }],
    };
    // from below, 60 degrees off the normal: the critical angle is about 41.8
    let start = beam([0.0, 0.0, -1.0], [(3.0f64).sqrt(), 0.0, 1.0]);
    let (point, k) = scene.intersect(&start, 0).unwrap();
    let (_, contact) = scene.arrive(&start, 1, point, k, 0);
    assert!(contact.beyond_critical);
    assert_eq!(contact.side, Side::Below);
    let mut ray = Ray::new(start, 1, 0);
    assert_eq!(ray.bounce_unchecked(&contact), BounceResult::Continue);
    assert_eq!(ray.vop, 1);
    assert_eq!(
        raytracer::interaction::interact(1, &contact),
        Step::Reflected { reversed: true }
    );
}

/// Straight through the boundary the ray is refracted and changes medium.
#[test]
fn refraction_changes_medium() {
    let scene = Scene {
        surfaces: vec![Surface { shape: xy_plane(), sop: SOP::Refract, above: 0, below: 1 }],
        media: vec![air(), Medium { ior: 1.5, abs: [0.0; 3] }],
    };
    let start = beam([1.0, 0.0, 1.0], [-1.0, 0.0, -1.0]);
    let (point, k) = scene.intersect(&start, 0).unwrap();
    let (moved, contact) = scene.arrive(&start, 0, point, k, 0);
    let mut ray = Ray::new(start, 0, 0);
    assert_eq!(ray.bounce_unchecked(&contact), BounceResult::Continue);
    assert_eq!(ray.vop, 1);
    // Snell: sines of the angles to the normal are in the ratio of the indices
    let step = raytracer::interaction::interact(0, &contact);
    let bent = scene.bend(&moved, step);
    let sin_i = (1.0 - dot([0.0, 0.0, 1.0], normalize([1.0, 0.0, 1.0])).powi(2)).sqrt();
    let sin_t = (1.0 - dot([0.0, 0.0, -1.0], normalize(bent.direction)).powi(2)).sqrt();
    assert!((1.0 * sin_i - 1.5 * sin_t).abs() <= 1e-12);
}

/// A ray in the wrong medium is reported, not traced.
#[test]
fn medium_mismatch_is_an_error() {
    let scene = Scene {
        surfaces: vec![Surface { shape: xy_plane(), sop: SOP::Reflect, above: 0, below: 1 }],
        media: vec![air(), Medium { ior: 1.5, abs: [0.0; 3] }],
    };
    let mut ray = downwards_ray();
    ray.vop = 1;
    assert_eq!(scene.launch(&mut ray), BounceResult::Error);
    assert_eq!(ray.result, None);
    let mut misplaced = downwards_ray();
    misplaced.vop = 1;
    let failed = trace_rays(
        vec![downwards_ray(), misplaced],
        1,
        |b: &Beam, s: usize| scene.intersect(b, s),
        |b: &Beam, vop: usize, p: V3, k: u64, s: usize| scene.arrive(b, vop, p, k, s),
        |b: &Beam, step: Step| scene.bend(b, step),
        10,
    );
    let e = failed.err().unwrap();
    assert_eq!((e.ray, e.surface, e.side), (1, 0, Side::Above));
}

/// Beer-Lambert: after a distance of 10 in a medium with absorption 0.05 a
/// white light arrives with round(255 exp(-0.5)) = 155.
#[test]
fn absorption_dims_the_light() {
    let scene = Scene {
        surfaces: vec![Surface {
            shape: xy_plane(),
            sop: SOP::Light(255, 255, 255),
            above: 0,
            below: 0,
        }],
        media: vec![Medium { ior: 1.0, abs: [0.05, 0.0, 0.1] }],
    };
    let mut ray = downwards_ray();
    let expected = |a: f64| (255.0 * (-a * 10.0f64).exp()).round() as u8;
    assert_eq!(expected(0.05), 155);
    assert_eq!(
        scene.launch(&mut ray),
        BounceResult::Count(expected(0.05), 255, expected(0.1))
    );
}

/// Two mirrors that face each other: the ray never retires, and the
/// journey stops at the cap.
#[test]
fn facing_mirrors_stop_at_the_cap() {
    let scene = Scene {
        surfaces: vec![
            Surface { shape: xy_plane(), sop: SOP::Reflect, above: 0, below: 0 },
            Surface {
                shape: Shape::Plane { origin: [0.0, 0.0, 20.0], normal: [0.0, 0.0, -1.0] },
                sop: SOP::Reflect,
                above: 0,
                below: 0,
            },
        ],
        media: vec![air()],
    };
    let mut ray = downwards_ray();
    let result = ray.launch(
        2,
        |b: &Beam, s: usize| scene.intersect(b, s),
        |b: &Beam, vop: usize, p: V3, k: u64, s: usize| scene.arrive(b, vop, p, k, s),
        |b: &Beam, step: Step| scene.bend(b, step),
        7,
    );
    assert_eq!(result, BounceResult::Continue);
    assert_eq!(ray.result, None);
    let (completed, live) = trace_rays(
        vec![downwards_ray()],
        2,
        |b: &Beam, s: usize| scene.intersect(b, s),
        |b: &Beam, vop: usize, p: V3, k: u64, s: usize| scene.arrive(b, vop, p, k, s),
        |b: &Beam, step: Step| scene.bend(b, step),
        7,
    )
    .unwrap();
    assert_eq!((completed.len(), live.len()), (0, 1));
}

/// Of two surfaces at the same distance the one with the lower index is met.
#[test]
fn equal_distances_go_to_the_lower_index() {
    let scene = Scene {
        surfaces: vec![
            Surface { shape: xy_plane(), sop: SOP::Light(1, 2, 3), above: 0, below: 0 },
            Surface { shape: xy_plane(), sop: SOP::Light(9, 9, 9), above: 0, below: 0 },
        ],
        media: vec![air()],
    };
    let mut ray = downwards_ray();
    assert_eq!(scene.launch(&mut ray), BounceResult::Count(1, 2, 3));
    let (completed, _) = scene.trace(vec![downwards_ray()]);
    assert_eq!(completed[0].result, Some([1, 2, 3]));
}

// ---- where a ray meets a sphere ----

#[test]
fn sphere_ray_intersection() {
    assert_eq!(unit_sphere().intersection(&downwards_ray().beam).unwrap(), [0.0, 0.0, 1.0]);
}

#[test]
fn mod_ray_intersection() {
    assert_eq!(unit_sphere().intersection(&downwards_ray().beam).unwrap(), [0.0, 0.0, 1.0]);
    // from the far point of the sphere the ray meets the near one, not itself
    let inside = beam([0.0, 0.0, -1.0], [0.0, 0.0, 1.0]);
    assert_eq!(unit_sphere().intersection(&inside).unwrap(), [0.0, 0.0, 1.0]);
    // the sphere behind the ray is not met
    let away = beam([0.0, 0.0, 10.0], [0.0, 0.0, 1.0]);
    assert_eq!(unit_sphere().intersection(&away), None);
}

// ---- single bounces at a given point ----

/// Takes the ray through the contact with the only surface of the scene
/// at `point`.
fn bounce(scene: &Scene, ray: &mut Ray<Beam>, point: V3) -> BounceResult {
    let d = sub(point, ray.beam.origin);
    let (moved, contact) = scene.arrive(&ray.beam, ray.vop, point, key(dot(d, d)), 0);
    let step = raytracer::interaction::interact(ray.vop, &contact);
    let result = ray.bounce_unchecked(&contact);
    ray.beam = scene.bend(&moved, step);
    result
}

const AIR: usize = 0;
const GLASS: usize = 1;

fn air_and_glass(shape: Shape, sop: SOP, above: usize, below: usize) -> Scene {
    Scene {
        surfaces: vec![Surface { shape, sop, above, below }],
        media: vec![air(), Medium { ior: 1.5, abs: [0.0; 3] }],
    }
}

fn refractive_plane() -> Scene {
    air_and_glass(xy_plane(), SOP::Refract, AIR, GLASS)
}

#[test]
fn refraction_orthogonal() {
    let plane = refractive_plane();
    let mut downward_ray = Ray::new(beam([0.0, 0.0, 0.0], [0.0, 0.0, -1.0]), AIR, 0);
    bounce(&plane, &mut downward_ray, [0.0, 0.0, 0.0]);
    assert_eq!(normalize(downward_ray.beam.direction), [0.0, 0.0, -1.0]);
    assert_eq!(downward_ray.beam.origin, [0.0, 0.0, 0.0]);
    assert_eq!(downward_ray.vop, GLASS);
}

#[test]
fn test_refraction_orthogonal() {
    let plane = refractive_plane();
    let mut downward_ray = Ray::new(beam([0.0, 0.0, 1.0], [0.0, 0.0, -1.0]), AIR, 0);
    bounce(&plane, &mut downward_ray, [0.0, 0.0, 0.0]);
    assert_eq!(normalize(downward_ray.beam.direction), [0.0, 0.0, -1.0]);
    assert_eq!(downward_ray.beam.origin, [0.0, 0.0, 0.0]);
}

fn snell_from_above() {
    let plane = refractive_plane();
    let original = beam([1.0, 0.0, 1.0], [-1.0, 0.0, -1.0]);
    let mut ray = Ray::new(original.clone(), AIR, 0);
    assert!(plane.intersect(&original, 0).is_some());
    bounce(&plane, &mut ray, [0.0, 0.0, 0.0]);

    // calculate via snell's law
    let normal = [0.0, 0.0, 1.0];
    let theta_i = dot(normal, normalize(scale(original.direction, -1.0))).acos();
    let theta_t = dot(scale(normal, -1.0), normalize(ray.beam.direction)).acos();
    assert!(1.0 * theta_i.sin() - 1.5 * theta_t.sin() <= f64::EPSILON);
    assert!((1.0 * theta_i.sin() - 1.5 * theta_t.sin()).abs() <= 1e-12);
    assert_eq!(ray.vop, GLASS);
}

#[test]
fn snells_law_from_above() {
    snell_from_above();
}

#[test]
fn test_snells_law_from_above() {
    snell_from_above();
}

#[test]
fn snells_law_from_below() {
    let plane = refractive_plane();
    let original = beam([0.2, 0.0, -1.0], [-0.2, 0.0, 1.0]);
    assert!(plane.intersect(&original, 0).is_some());
    let mut ray = Ray::new(original.clone(), GLASS, 0);
    bounce(&plane, &mut ray, [0.0, 0.0, 0.0]);

    // calculate via snell's law
    let normal = [0.0, 0.0, 1.0];
    let theta_i = dot(normal, normalize(original.direction)).acos();
    let theta_t = dot(normal, normalize(ray.beam.direction));
    assert!(1.5 * theta_i.sin() - 1.0 * theta_t.sin() <= f64::EPSILON);
    // the sines of the two angles are in the ratio of the indices
    assert!((1.5 * theta_i.sin() - 1.0 * theta_t.acos().sin()).abs() <= 1e-12);
    assert_eq!(ray.vop, AIR);
}

#[test]
fn reflection_air() {
    let plane = one_surface(xy_plane(), SOP::Reflect);
    let mut ray = Ray::new(beam([1.0, 0.0, 1.0], [-1.0, 0.0, -1.0]), 0, 0);
    bounce(&plane, &mut ray, [0.0, 0.0, 0.0]);
    assert_eq!(ray.beam.origin, [0.0, 0.0, 0.0]);
    let gap = sub(normalize(ray.beam.direction), normalize([-1.0, 0.0, 1.0]));
    assert!(dot(gap, gap) <= TOLERANCE);
}

fn sphere_reflection(above: usize, below: usize) {
    let sphere = air_and_glass(unit_sphere(), SOP::Reflect, above, below);
    let mut ray = Ray::new(beam([1.0, 0.0, 2.0], [-1.0, 0.0, -1.0]), AIR, 0);
    assert_eq!(bounce(&sphere, &mut ray, [0.0, 0.0, 1.0]), BounceResult::Continue);
    assert_eq!(ray.beam.origin, [0.0, 0.0, 1.0]);
    let gap = sub(normalize(ray.beam.direction), normalize([-1.0, 0.0, 1.0]));
    assert!(dot(gap, gap) <= TOLERANCE);
    assert_eq!(ray.vop, AIR);
}

#[test]
fn test_sphere_reflection_air() {
    sphere_reflection(AIR, AIR);
}

#[test]
fn test_sphere_reflection_glass() {
    sphere_reflection(AIR, GLASS);
}

// ---- the camera of the trace tests: at the origin, looking along x ----

fn camera_rays(camera: &Camera, fov: [f64; 2]) -> Vec<Ray<Beam>> {
    let size = [
        2.0 * (fov[0] / 2.0).to_radians().tan(),
        2.0 * (fov[1] / 2.0).to_radians().tan(),
    ];
    let beams: Vec<Beam> = camera
        .subpixel_centers()
        .iter()
        .map(|s| {
            let fine = camera.antialiasing as f64;
            let u = (s.pixel_x as f64 + (s.sub_x as f64 + 0.5) / fine) / camera.num_x as f64;
            let v = (s.pixel_y as f64 + (s.sub_y as f64 + 0.5) / fine) / camera.num_y as f64;
            beam([0.0; 3], [1.0, (u - 0.5) * size[0], (v - 0.5) * size[1]])
        })
        .collect();
    camera.create_rays(beams)
}

fn default_camera() -> Camera {
    Camera { num_x: 5, num_y: 5, antialiasing: 1, vop: 0 }
}

fn default_media() -> Vec<Medium> {
    vec![
        Medium { ior: 1.0, abs: [0.01, 0.05, 0.0] },
        Medium { ior: 1.5, abs: [0.0; 3] },
    ]
}

fn default_plane() -> Surface {
    Surface {
        shape: Shape::Plane { origin: [5.0, 0.0, 0.0], normal: [-1.0, 0.0, 0.0] },
        sop: SOP::Light(255, 255, 255),
        above: 0,
        below: 0,
    }
}

fn default_sphere(sop: SOP) -> Surface {
    Surface {
        shape: Shape::Sphere { center: [3.0, 0.0, 0.0], radius: 0.5 },
        sop,
        above: 0,
        below: 1,
    }
}

fn test_with_sop(sop: Option<SOP>) -> Vec<Ray<Beam>> {
    let rays = camera_rays(&default_camera(), [5.0, 5.0]);
    let mut surfaces = vec![default_plane()];
    if let Some(x) = sop {
        surfaces.push(default_sphere(x));
    }
    let scene = Scene { surfaces, media: default_media() };
    let (traced, live) = scene.trace(rays);
    assert!(live.is_empty());
    assert_eq!(traced.len(), 25);
    assert!(traced.iter().all(|r| r.result.is_some()));
    traced
}

#[test]
fn trace_colored_air() {
    test_with_sop(None);
}

#[test]
fn trace_light() {
    test_with_sop(Some(SOP::Light(200, 200, 100)));
}

#[test]
fn trace_reflection() {
    test_with_sop(Some(SOP::Reflect));
}

#[test]
fn trace_refraction() {
    test_with_sop(Some(SOP::Refract));
}

#[test]
fn trace_dark() {
    test_with_sop(Some(SOP::Dark));
}

#[test]
fn ray_data() {
    let rays = test_with_sop(None);
    let pixels = process_ray_data(rays, 25);
    assert_eq!(pixels.len(), 25);
    // the middle ray travels 5 through the coloured air
    let expected = |a: f64| (255.0 * (-a * 5.0f64).exp()).round() as u8;
    assert_eq!(pixels[12], [expected(0.01), expected(0.05), 255]);
}

#[test]
fn correct_intersection() {
    let rays = camera_rays(&default_camera(), [5.0, 5.0]);
    let scene = Scene {
        surfaces: vec![default_plane(), default_sphere(SOP::Light(60, 60, 60))],
        media: default_media(),
    };
    let (traced, _) = scene.trace(rays);
    assert!(traced.iter().all(|r| r.result.is_some()));
    assert_eq!(traced[0].result.unwrap()[2], 60);
}

/// One batch, single rays and any split into batches give every pixel the
/// same colour.
#[test]
fn batches_agree_with_single_rays() {
    let camera = Camera { num_x: 6, num_y: 4, antialiasing: 2, vop: 0 };
    let scene = Scene {
        surfaces: vec![
            default_plane(),
            default_sphere(SOP::Refract),
            Surface {
                shape: Shape::Sphere { center: [2.0, 0.3, 0.0], radius: 0.2 },
                sop: SOP::Reflect,
                above: 0,
                below: 0,
            },
            Surface {
                shape: Shape::Plane { origin: [0.0, 0.0, -1.0], normal: [0.0, 0.0, 1.0] },
                sop: SOP::Dark,
                above: 0,
                below: 0,
            },
        ],
        media: default_media(),
    };
    let rays = camera_rays(&camera, [40.0, 30.0]);
    let pixels = camera.num_x * camera.num_y;

    let (whole, live) = scene.trace(rays.clone());
    assert!(live.is_empty());
    let batched = process_ray_data(whole, pixels);

    let mut alone: Vec<Ray<Beam>> = Vec::new();
    for ray in rays.iter() {
        let mut ray = ray.clone();
        let result = scene.launch(&mut ray);
        assert!(matches!(result, BounceResult::Count(..) | BounceResult::Kill));
        alone.push(ray);
    }
    assert_eq!(process_ray_data(alone.clone(), pixels), batched);

    for cut in [0, 1, 17, rays.len() / 2, rays.len()] {
        let (first, _) = scene.trace(rays[..cut].to_vec());
        let (second, _) = scene.trace(rays[cut..].to_vec());
        let mut joined = second;
        joined.extend(first);
        assert_eq!(process_ray_data(joined, pixels), batched);
    }

    // the same picture from the colours in the order of the rays
    let colours: Vec<[u8; 3]> = alone.iter().map(|r| r.result.unwrap()).collect();
    assert_eq!(raytracer::combine_rays(colours, camera.antialiasing), batched);
}
