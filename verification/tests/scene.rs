use raytracer::geometry::Ray;
use raytracer::scene::{HitRecord, Hittable, Scene, SceneObject, Sky};

type Vec3 = [f32; 3];

fn sub(a: Vec3, b: Vec3) -> Vec3 {
    [a[0] - b[0], a[1] - b[1], a[2] - b[2]]
}

fn dot(a: Vec3, b: Vec3) -> f32 {
    a[0] * b[0] + a[1] * b[1] + a[2] * b[2]
}

fn at(ray: &Ray<Vec3>, t: f32) -> Vec3 {
    [
        ray.origin[0] + t * ray.direction[0],
        ray.origin[1] + t * ray.direction[1],
        ray.origin[2] + t * ray.direction[2],
    ]
}

struct Sphere {
    center: Vec3,
    radius: f32,
}

impl Hittable<f32, Vec3> for Sphere {
    fn hit(&self, ray: &Ray<Vec3>, tmin: f32, tmax: f32) -> Option<HitRecord<f32, Vec3>> {
        let oc = sub(ray.origin, self.center);
        let a = dot(ray.direction, ray.direction);
        let b = dot(oc, ray.direction);
        let c = dot(oc, oc) - self.radius * self.radius;
        let discriminant = b * b - a * c;
        if discriminant < 0.0 {
            return None;
        }
        let mut t = (-b - discriminant.sqrt()) / a;
        if t <= tmin {
            t = (-b + discriminant.sqrt()) / a;
        }
        if t <= tmin || tmax <= t {
            return None;
        }
        let hit_point = at(ray, t);
        let offset = sub(hit_point, self.center);
        let normal =
            [offset[0] / self.radius, offset[1] / self.radius, offset[2] / self.radius];
        let front_face = dot(normal, ray.direction) < 0.0;
        Some(HitRecord { t, hit_point, normal, front_face })
    }

    fn contains(&self, point: Vec3) -> bool {
        let offset = sub(point, self.center);
        dot(offset, offset) < self.radius * self.radius
    }
}

// A shape that records nothing of the ray: it is hit at `t` whenever `t`
// lies strictly inside the interval asked for.
struct Plate {
    t: f32,
}

impl Hittable<f32, Vec3> for Plate {
    fn hit(&self, ray: &Ray<Vec3>, tmin: f32, tmax: f32) -> Option<HitRecord<f32, Vec3>> {
        if tmin < self.t && self.t < tmax {
            Some(HitRecord {
                t: self.t,
                hit_point: at(ray, self.t),
                normal: [0.0, 0.0, -1.0],
                front_face: true,
            })
        } else {
            None
        }
    }

    fn contains(&self, _: Vec3) -> bool {
        false
    }
}

fn forward() -> Ray<Vec3> {
    Ray { origin: [0.0, 0.0, 0.0], direction: [0.0, 0.0, 1.0] }
}

fn dusk(_: Vec3) -> u8 {
    40
}

#[test]
fn new_scene_is_empty_under_a_black_sky() {
    let scene: Scene<Sphere, u8, fn(Vec3) -> u8> = Scene::new();
    assert_eq!(scene.objects.len(), 0);
    assert!(matches!(scene.sky, Sky::Black));
    assert!(scene.first_hit(&forward(), 0.001, f32::INFINITY).is_none());
}

#[test]
fn sky_can_be_set() {
    let mut scene: Scene<Sphere, u8, fn(Vec3) -> u8> = Scene::new();
    scene.sky = Sky::ColorMap(dusk);
    match scene.sky {
        Sky::ColorMap(map) => assert_eq!(map([0.0, 1.0, 0.0]), 40),
        Sky::Black => panic!("the sky was set"),
    }
}

#[test]
fn add_object_appends() {
    let mut scene: Scene<Plate, u8, fn(Vec3) -> u8> = Scene::new();
    scene.add_object(Plate { t: 1.0 }, 10);
    scene.add_object(Plate { t: 2.0 }, 20);
    assert_eq!(scene.objects.len(), 2);
    assert_eq!(scene.objects[0].material, 10);
    assert_eq!(scene.objects[1].shape.t, 2.0);
    assert!(matches!(scene.sky, Sky::Black));
}

#[test]
fn first_hit_of_overlapping_spheres_is_the_nearer() {
    let mut scene: Scene<Sphere, u8, fn(Vec3) -> u8> = Scene::new();
    scene.add_object(Sphere { center: [0.0, 0.0, 5.0], radius: 1.0 }, 1);
    scene.add_object(Sphere { center: [0.0, 0.0, 4.5], radius: 1.0 }, 2);
    let (object, record) = scene.first_hit(&forward(), 0.001, f32::INFINITY).unwrap();
    assert_eq!(object.material, 2);
    assert!((record.t - 3.5).abs() < 1e-5);

    // the same two spheres, listed the other way round
    let mut scene: Scene<Sphere, u8, fn(Vec3) -> u8> = Scene::new();
    scene.add_object(Sphere { center: [0.0, 0.0, 4.5], radius: 1.0 }, 2);
    scene.add_object(Sphere { center: [0.0, 0.0, 5.0], radius: 1.0 }, 1);
    let (object, record) = scene.first_hit(&forward(), 0.001, f32::INFINITY).unwrap();
    assert_eq!(object.material, 2);
    assert!((record.t - 3.5).abs() < 1e-5);
    assert!(record.front_face);
    assert!((record.normal[2] + 1.0).abs() < 1e-5);
}

#[test]
fn first_hit_misses_what_lies_aside() {
    let mut scene: Scene<Sphere, u8, fn(Vec3) -> u8> = Scene::new();
    scene.add_object(Sphere { center: [3.0, 0.0, 5.0], radius: 1.0 }, 1);
    assert!(scene.first_hit(&forward(), 0.001, f32::INFINITY).is_none());
}

#[test]
fn first_hit_keeps_the_interval() {
    let mut scene: Scene<Plate, u8, fn(Vec3) -> u8> = Scene::new();
    scene.add_object(Plate { t: 0.0005 }, 1);
    scene.add_object(Plate { t: 9.0 }, 2);
    scene.add_object(Plate { t: 4.0 }, 3);
    scene.add_object(Plate { t: 6.0 }, 4);
    let (object, record) = scene.first_hit(&forward(), 0.001, f32::INFINITY).unwrap();
    assert_eq!((object.material, record.t), (3, 4.0));
    let (object, record) = scene.first_hit(&forward(), 4.0, f32::INFINITY).unwrap();
    assert_eq!((object.material, record.t), (4, 6.0));
    let (object, record) = scene.first_hit(&forward(), 4.0, 9.5).unwrap();
    assert_eq!((object.material, record.t), (4, 6.0));
    assert!(scene.first_hit(&forward(), 4.0, 6.0).is_none());
    assert!(scene.first_hit(&forward(), 9.0, f32::INFINITY).is_none());
}

// Two hits at the same distance: the later object passes its test only
// under a bound above its own `t`, so the earlier one stays.
#[test]
fn first_hit_of_equal_distances_is_the_earlier_object() {
    let mut scene: Scene<Plate, u8, fn(Vec3) -> u8> = Scene::new();
    scene.add_object(Plate { t: 2.0 }, 1);
    scene.add_object(Plate { t: 2.0 }, 2);
    let (object, record) = scene.first_hit(&forward(), 0.001, f32::INFINITY).unwrap();
    assert_eq!((object.material, record.t), (1, 2.0));
}

#[test]
fn scene_object_binds_shape_and_material() {
    let object = SceneObject { shape: Plate { t: 1.5 }, material: "matte" };
    assert_eq!(object.shape.t, 1.5);
    assert_eq!(object.material, "matte");
    assert!(!object.shape.contains([0.0, 0.0, 0.0]));
    let ball = Sphere { center: [0.0, 0.0, 0.0], radius: 1.0 };
    assert!(ball.contains([0.5, 0.0, 0.0]));
}

// A ray along an axis, aimed at the centre of a sphere at the origin from a
// distance d, is hit at d - r, and the normal there points back at the ray.
#[test]
fn first_hit_on_a_sphere_reports_distance_and_normal() {
    for (d, r) in [(3.0f32, 1.0f32), (10.0, 2.5), (1.5, 1.0)] {
        let mut scene: Scene<Sphere, u8, fn(Vec3) -> u8> = Scene::new();
        scene.add_object(Sphere { center: [0.0, 0.0, 0.0], radius: r }, 1);
        let ray = Ray { origin: [-d, 0.0, 0.0], direction: [1.0, 0.0, 0.0] };
        let (_, record) = scene.first_hit(&ray, 0.001, f32::INFINITY).unwrap();
        assert!((record.t - (d - r)).abs() < 1e-5);
        assert!((dot(record.normal, record.normal) - 1.0).abs() < 1e-5);
        assert!((record.normal[0] + 1.0).abs() < 1e-5);
        assert!(record.front_face);
    }
}

// A ray that passes a sphere at a distance above its radius hits nothing.
#[test]
fn first_hit_misses_a_sphere_that_the_ray_passes() {
    let mut scene: Scene<Sphere, u8, fn(Vec3) -> u8> = Scene::new();
    scene.add_object(Sphere { center: [0.0, 0.0, 0.0], radius: 1.0 }, 1);
    for offset in [1.001f32, 1.5, 20.0] {
        let ray = Ray { origin: [-5.0, offset, 0.0], direction: [1.0, 0.0, 0.0] };
        assert!(scene.first_hit(&ray, 0.001, f32::INFINITY).is_none());
    }
}

// From inside a sphere the nearer root lies behind the ray, and the farther
// one is taken.
#[test]
fn first_hit_from_inside_a_sphere_takes_the_far_root() {
    let mut scene: Scene<Sphere, u8, fn(Vec3) -> u8> = Scene::new();
    scene.add_object(Sphere { center: [0.0, 0.0, 0.0], radius: 2.0 }, 1);
    let (_, record) = scene.first_hit(&forward(), 0.001, f32::INFINITY).unwrap();
    assert!((record.t - 2.0).abs() < 1e-5);
    assert!(!record.front_face);
}
