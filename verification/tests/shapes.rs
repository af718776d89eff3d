use raytracer_lib::geometry::{BBox, Cuboid, Instance, Mesh, Quad, Shape, Sphere, Triangle};
use raytracer_lib::hit_record::{HitRecord, PRIMARY_T_MIN};
use raytracer_lib::material::{Lambertian, Material, Metal};
use raytracer_lib::math::{Ray, Rotation3, V3};
use raytracer_lib::scalar::{Real, INFINITY, ONE};
use raytracer_lib::texture::{SolidColor, Texture};
use std::sync::Arc;

fn fx(x: f64) -> Real {
    (x * 1048576.0).round() as Real
}

fn v3(x: f64, y: f64, z: f64) -> V3 {
    V3::new(fx(x), fx(y), fx(z))
}

fn grey() -> Arc<Material> {
    Arc::new(Material::Lambertian(Lambertian::new(Arc::new(Texture::SolidColor(
        SolidColor::new(v3(0.5, 0.5, 0.5)),
    )))))
}

fn steel() -> Arc<Material> {
    Arc::new(Material::Metal(Metal::new(
        Arc::new(Texture::SolidColor(SolidColor::new(v3(0.8, 0.8, 0.8)))),
        0,
    )))
}

fn down_z() -> Ray {
    Ray { origin: v3(0.0, 0.0, 0.0), direction: v3(0.0, 0.0, -1.0) }
}

#[test]
fn new_hit_record_is_empty() {
    let hit = HitRecord::new(down_z());
    assert_eq!(hit.t, INFINITY);
    assert_eq!(hit.t_min, PRIMARY_T_MIN);
    assert_eq!(hit.t_min, fx(0.001));
    assert_eq!(hit.depth, 0);
    assert!(hit.hit_data.is_none());
    assert_eq!(hit.ray, down_z());
}

#[test]
fn bounce_resets_the_record() {
    let mut hit = HitRecord::new(down_z());
    hit.t = fx(4.0);
    let out = Ray { origin: v3(0.0, 0.0, -4.0), direction: v3(0.0, 1.0, 0.0) };
    let next = hit.bounce(out);
    assert_eq!(next.t, INFINITY);
    assert_eq!(next.t_min, 1);
    assert_eq!(next.depth, 1);
    assert_eq!(next.ray, out);
    assert!(next.hit_data.is_none());
    assert_eq!(next.bounce(out).depth, 2);
    assert_eq!(hit.point(), v3(0.0, 0.0, -4.0));
}

#[test]
fn set_hit_data_turns_the_normal_to_face_the_ray() {
    let m = grey();
    let mut hit = HitRecord::new(down_z());
    hit.set_hit_data(v3(0.0, 0.0, 1.0), (1, 2), &m);
    let d = hit.hit_data.unwrap();
    assert!(d.front_face);
    assert_eq!(d.normal, v3(0.0, 0.0, 1.0));
    assert_eq!(d.uv, (1, 2));
    hit.set_hit_data(v3(0.0, 0.0, -1.0), (0, 0), &m);
    let d = hit.hit_data.unwrap();
    assert!(!d.front_face);
    assert_eq!(d.normal, v3(0.0, 0.0, 1.0));
}

#[test]
fn sphere_hit_is_distance_minus_radius() {
    let s = Sphere::new(v3(0.0, 0.0, -5.0), fx(1.0), grey());
    let mut hit = HitRecord::new(down_z());
    assert!(s.closest_hit(&mut hit));
    assert_eq!(hit.t, fx(4.0));
    let d = hit.hit_data.unwrap();
    assert_eq!(d.normal, v3(0.0, 0.0, 1.0));
    assert!(d.front_face);
    assert_eq!(hit.ray, down_z());
    assert_eq!(s.distance(&down_z(), PRIMARY_T_MIN), Some(fx(4.0)));
    assert_eq!(s.distance(&down_z(), fx(4.5)), Some(fx(6.0)));
    assert_eq!(s.distance(&down_z(), fx(6.5)), None);
}

#[test]
fn sphere_hit_along_a_diagonal() {
    // from (3, 4, 0) towards the origin, five away, onto a sphere of radius two
    let s = Sphere::new(v3(0.0, 0.0, 0.0), fx(2.0), grey());
    let ray = Ray { origin: v3(3.0, 4.0, 0.0), direction: v3(-0.6, -0.8, 0.0) };
    let mut hit = HitRecord::new(ray);
    assert!(s.closest_hit(&mut hit));
    assert!((hit.t - fx(3.0)).abs() <= 16, "t = {}", hit.t);
}

#[test]
fn sphere_from_inside_takes_the_far_root() {
    let s = Sphere::new(v3(0.0, 0.0, 0.0), fx(1.0), grey());
    let mut hit = HitRecord::new(down_z());
    assert!(s.closest_hit(&mut hit));
    assert_eq!(hit.t, fx(1.0));
    let d = hit.hit_data.unwrap();
    assert!(!d.front_face);
    assert_eq!(d.normal, v3(0.0, 0.0, 1.0));
}

#[test]
fn sphere_miss_leaves_the_record_alone() {
    let s = Sphere::new(v3(0.0, 0.0, -5.0), fx(1.0), grey());
    let ray = Ray { origin: v3(0.0, 0.0, 0.0), direction: v3(0.0, 1.0, 0.0) };
    let mut hit = HitRecord::new(ray);
    assert!(!s.closest_hit(&mut hit));
    assert_eq!(hit.t, INFINITY);
    assert!(hit.hit_data.is_none());
    // behind the ray
    let mut hit = HitRecord::new(Ray { origin: v3(0.0, 0.0, 0.0), direction: v3(0.0, 0.0, 1.0) });
    assert!(!s.closest_hit(&mut hit));
    // a ray without direction
    let mut hit = HitRecord::new(Ray { origin: v3(0.0, 0.0, 0.0), direction: V3::zero() });
    assert!(!s.closest_hit(&mut hit));
}

#[test]
fn sphere_does_not_replace_a_closer_hit() {
    let m = steel();
    let s = Sphere::new(v3(0.0, 0.0, -5.0), fx(1.0), grey());
    let mut hit = HitRecord::new(down_z());
    hit.t = fx(3.0);
    hit.set_hit_data(v3(0.0, 1.0, 0.0), (7, 7), &m);
    assert!(!s.closest_hit(&mut hit));
    assert_eq!(hit.t, fx(3.0));
    assert_eq!(hit.hit_data.unwrap().uv, (7, 7));
    // a hit at exactly the same distance is no improvement either
    hit.t = fx(4.0);
    assert!(!s.closest_hit(&mut hit));
    assert_eq!(hit.hit_data.unwrap().uv, (7, 7));
}

#[test]
fn sphere_box_surrounds_it() {
    let s = Sphere::new(v3(1.0, 2.0, 3.0), fx(0.5), grey());
    assert_eq!(s.bbox, BBox::new(v3(0.5, 1.5, 2.5), v3(1.5, 2.5, 3.5)));
    assert_eq!(s.normal(&v3(1.0, 2.0, 3.5)), v3(0.0, 0.0, 0.5));
    let shape = Shape::Sphere(s);
    assert_eq!(shape.get_centroid(), v3(1.0, 2.0, 3.0));
    assert_eq!(shape.get_bbox().centroid, v3(1.0, 2.0, 3.0));
    assert_eq!(shape.get_bbox().extent, v3(1.0, 1.0, 1.0));
}

#[test]
fn cuboid_hit_and_normal() {
    let c = Cuboid::new(v3(-0.25, -0.25, -2.25), v3(0.25, 0.25, -1.75), grey());
    let mut hit = HitRecord::new(down_z());
    assert!(c.closest_hit(&mut hit));
    assert_eq!(hit.t, fx(1.75));
    let d = hit.hit_data.unwrap();
    assert_eq!(d.normal, v3(0.0, 0.0, 1.0));
    assert!(d.front_face);
    assert_eq!(d.uv, (0, 0));
    let mut hit = HitRecord::new(Ray { origin: v3(0.0, 0.0, 0.0), direction: v3(0.0, 0.0, 1.0) });
    assert!(!c.closest_hit(&mut hit));
    assert_eq!(hit.t, INFINITY);
}

#[test]
fn cuboid_normals_by_face() {
    let c = Cuboid::new(v3(-1.0, -2.0, -3.0), v3(1.0, 2.0, 3.0), grey());
    assert_eq!(c.normal(&v3(1.0, 0.5, 0.5)), v3(1.0, 0.0, 0.0));
    assert_eq!(c.normal(&v3(-1.0, 0.5, 0.5)), v3(-1.0, 0.0, 0.0));
    assert_eq!(c.normal(&v3(0.25, 2.0, 0.5)), v3(0.0, 1.0, 0.0));
    assert_eq!(c.normal(&v3(0.25, -2.0, 0.5)), v3(0.0, -1.0, 0.0));
    assert_eq!(c.normal(&v3(0.25, 0.5, 3.0)), v3(0.0, 0.0, 1.0));
    assert_eq!(c.normal(&v3(0.25, 0.5, -3.0)), v3(0.0, 0.0, -1.0));
}

#[test]
fn triangle_hit_with_barycentric_coordinates() {
    let t = Triangle::new(v3(-1.0, -1.0, -3.0), v3(1.0, -1.0, -3.0), v3(0.0, 1.0, -3.0), grey());
    assert_eq!(t.normal_a, v3(0.0, 0.0, 1.0));
    let mut hit = HitRecord::new(down_z());
    assert!(t.closest_hit(&mut hit));
    assert_eq!(hit.t, fx(3.0));
    let d = hit.hit_data.unwrap();
    assert_eq!(d.uv, (fx(0.25), fx(0.5)));
    assert_eq!(d.normal, v3(0.0, 0.0, 1.0));
    assert!(d.front_face);
    let shape = Shape::Triangle(t);
    assert_eq!(shape.get_centroid(), V3::new(0, fx(-1.0 / 3.0) - 1, fx(-3.0)));
}

#[test]
fn triangle_misses() {
    let t = Triangle::new(v3(-1.0, -1.0, -3.0), v3(1.0, -1.0, -3.0), v3(0.0, 1.0, -3.0), grey());
    // beside the triangle
    let mut hit = HitRecord::new(Ray { origin: v3(2.0, 2.0, 0.0), direction: v3(0.0, 0.0, -1.0) });
    assert!(!t.closest_hit(&mut hit));
    assert!(t.intersect(&hit.ray, PRIMARY_T_MIN).is_none());
    // along the plane
    let mut hit = HitRecord::new(Ray { origin: v3(0.0, 0.0, 0.0), direction: v3(1.0, 0.0, 0.0) });
    assert!(!t.closest_hit(&mut hit));
    // behind the ray
    let mut hit = HitRecord::new(Ray { origin: v3(0.0, 0.0, -4.0), direction: v3(0.0, 0.0, -1.0) });
    assert!(!t.closest_hit(&mut hit));
    // something closer is known already
    let mut hit = HitRecord::new(down_z());
    hit.t = fx(3.0);
    assert!(!t.closest_hit(&mut hit));
    assert!(hit.hit_data.is_none());
}

#[test]
fn triangle_from_mesh_blends_normals() {
    let t = Triangle::from_mesh(
        v3(-1.0, -1.0, -3.0),
        v3(1.0, -1.0, -3.0),
        v3(0.0, 1.0, -3.0),
        v3(0.0, 0.0, 1.0),
        v3(0.0, 0.0, 1.0),
        v3(0.0, 1.0, 0.0),
        grey(),
    );
    let mut hit = HitRecord::new(down_z());
    assert!(t.closest_hit(&mut hit));
    // half of the third normal and half of the others: (0, 1/2, 1/2), normalised
    assert_eq!(hit.hit_data.unwrap().normal, V3::new(0, 741455, 741455));
}

#[test]
fn triangle_box_is_padded() {
    let t = Triangle::new(v3(-1.0, -1.0, -3.0), v3(1.0, -1.0, -3.0), v3(0.0, 1.0, -3.0), grey());
    // two units wide and high: four millionths of that and one step more; flat in depth
    assert_eq!(t.bbox.min, V3::new(fx(-1.0) - 9, fx(-1.0) - 9, fx(-3.0) - 1));
    assert_eq!(t.bbox.max, V3::new(fx(1.0) + 9, fx(1.0) + 9, fx(-3.0) + 1));
    // the box of a triangle that lies in a plane of the grid is still hit
    assert!(t.bbox.hit(&down_z(), PRIMARY_T_MIN, INFINITY).is_some());
}

#[test]
fn quad_hit() {
    let q = Quad::new(v3(-1.0, -1.0, -2.0), v3(2.0, 0.0, 0.0), v3(0.0, 2.0, 0.0), grey());
    let mut hit = HitRecord::new(down_z());
    assert!(q.closest_hit(&mut hit));
    assert_eq!(hit.t, fx(2.0));
    let d = hit.hit_data.unwrap();
    assert_eq!(d.uv, (fx(0.5), fx(0.5)));
    assert_eq!(d.normal, v3(0.0, 0.0, 1.0));
    let mut hit = HitRecord::new(Ray { origin: v3(1.5, 0.0, 0.0), direction: v3(0.0, 0.0, -1.0) });
    assert!(!q.closest_hit(&mut hit));
    let mut hit = HitRecord::new(Ray { origin: v3(0.75, -0.5, 0.0), direction: v3(0.0, 0.0, -1.0) });
    assert!(q.closest_hit(&mut hit));
    assert_eq!(hit.hit_data.unwrap().uv, (fx(0.875), fx(0.25)));
}

#[test]
fn quad_box_holds_all_corners() {
    let q = Quad::new(v3(1.0, 1.0, -2.0), v3(-2.0, 0.0, 0.0), v3(0.0, -2.0, 0.0), grey());
    assert_eq!(q.bbox.min, V3::new(fx(-1.0) - 9, fx(-1.0) - 9, fx(-2.0) - 1));
    assert_eq!(q.bbox.max, V3::new(fx(1.0) + 9, fx(1.0) + 9, fx(-2.0) + 1));
}

#[test]
fn instance_translates() {
    let sphere = Arc::new(Shape::Sphere(Sphere::new(V3::zero(), fx(1.0), grey())));
    let i = Instance::new(
        sphere,
        v3(0.0, 0.0, -5.0),
        Rotation3::identity(),
        v3(1.0, 1.0, 1.0),
        steel(),
    )
    .unwrap();
    assert_eq!(i.bbox.min, v3(-1.0, -1.0, -6.0));
    assert_eq!(i.bbox.max, v3(1.0, 1.0, -4.0));
    let mut hit = HitRecord::new(down_z());
    assert!(i.closest_hit(&mut hit));
    assert_eq!(hit.t, fx(4.0));
    assert_eq!(hit.ray, down_z());
    let d = hit.hit_data.unwrap();
    assert_eq!(d.normal, v3(0.0, 0.0, 1.0));
    assert!(matches!(d.material, Material::Metal(_)));
}

#[test]
fn instance_scales() {
    let sphere = Arc::new(Shape::Sphere(Sphere::new(V3::zero(), fx(1.0), grey())));
    let i = Instance::new(
        sphere,
        v3(0.0, 0.0, -5.0),
        Rotation3::identity(),
        v3(2.0, 2.0, 2.0),
        grey(),
    )
    .unwrap();
    assert_eq!(i.bbox.min, v3(-2.0, -2.0, -7.0));
    assert_eq!(i.bbox.max, v3(2.0, 2.0, -3.0));
    let mut hit = HitRecord::new(down_z());
    assert!(i.closest_hit(&mut hit));
    assert_eq!(hit.t, fx(3.0));
    assert_eq!(hit.hit_data.unwrap().normal, v3(0.0, 0.0, 1.0));
}

#[test]
fn instance_miss_restores_the_ray() {
    let sphere = Arc::new(Shape::Sphere(Sphere::new(V3::zero(), fx(1.0), grey())));
    let i = Instance::new(
        sphere,
        v3(10.0, 0.0, -5.0),
        Rotation3::identity(),
        v3(1.0, 1.0, 1.0),
        grey(),
    )
    .unwrap();
    let mut hit = HitRecord::new(down_z());
    assert!(!i.closest_hit(&mut hit));
    assert_eq!(hit.ray, down_z());
    assert_eq!(hit.t, INFINITY);
    assert!(hit.hit_data.is_none());
}

#[test]
fn instance_needs_an_invertible_scale() {
    let sphere = Arc::new(Shape::Sphere(Sphere::new(V3::zero(), fx(1.0), grey())));
    assert!(Instance::new(
        sphere.clone(),
        V3::zero(),
        Rotation3::identity(),
        v3(1.0, 0.0, 1.0),
        grey()
    )
    .is_none());
    assert!(Instance::new(
        sphere.clone(),
        V3::zero(),
        Rotation3::identity(),
        v3(0.0, 1.0, 1.0),
        grey()
    )
    .is_none());
    assert!(Instance::new(sphere, V3::zero(), Rotation3::identity(), v3(1.0, 1.0, 0.0), grey())
        .is_none());
}

#[test]
fn mesh_of_two_triangles() {
    let positions = vec![
        v3(-1.0, -1.0, -3.0),
        v3(1.0, -1.0, -3.0),
        v3(1.0, 1.0, -3.0),
        v3(-1.0, 1.0, -3.0),
    ];
    let indices: Vec<u32> = vec![0, 1, 2, 0, 2, 3];
    let mesh = Mesh::new(&positions, &indices, steel());
    assert_eq!(mesh.bvh.root.shapes.len(), 2);
    for shape in &mesh.bvh.root.shapes {
        match &**shape {
            Shape::Triangle(t) => assert!(Arc::ptr_eq(&t.material, &mesh.material)),
            _ => panic!("a mesh holds triangles"),
        }
    }
    assert_eq!(mesh.bbox.min, V3::new(fx(-1.0) - 9, fx(-1.0) - 9, fx(-3.0) - 1));
    assert_eq!(mesh.bbox.max, V3::new(fx(1.0) + 9, fx(1.0) + 9, fx(-3.0) + 1));
    let shape = Shape::Mesh(mesh);
    let mut hit = HitRecord::new(Ray { origin: v3(0.5, -0.5, 0.0), direction: v3(0.0, 0.0, -1.0) });
    assert!(shape.closest_hit(&mut hit));
    assert_eq!(hit.t, fx(3.0));
    assert!(matches!(hit.hit_data.unwrap().material, Material::Metal(_)));
    let mut hit = HitRecord::new(Ray { origin: v3(-0.5, 0.5, 0.0), direction: v3(0.0, 0.0, -1.0) });
    assert!(shape.closest_hit(&mut hit));
    assert_eq!(hit.t, fx(3.0));
    let mut hit = HitRecord::new(Ray { origin: v3(1.5, 0.5, 0.0), direction: v3(0.0, 0.0, -1.0) });
    assert!(!shape.closest_hit(&mut hit));
    assert_eq!(ONE, fx(1.0));
}

#[test]
fn instance_keeps_the_face_that_was_hit() {
    // a sphere of radius two moved to (1, 0, 0), and a ray that starts inside it
    let sphere = Arc::new(Shape::Sphere(Sphere::new(V3::zero(), fx(2.0), grey())));
    let i = Instance::new(
        sphere.clone(),
        v3(1.0, 0.0, 0.0),
        Rotation3::identity(),
        v3(1.0, 1.0, 1.0),
        steel(),
    )
    .unwrap();
    let mut through = HitRecord::new(down_z());
    assert!(i.closest_hit(&mut through));
    let mut direct = HitRecord::new(Ray { origin: v3(-1.0, 0.0, 0.0), direction: v3(0.0, 0.0, -1.0) });
    assert!(sphere.closest_hit(&mut direct));
    let (a, b) = (through.hit_data.unwrap(), direct.hit_data.unwrap());
    assert_eq!(through.t, direct.t);
    assert!((through.t - fx(1.7320508)).abs() <= 4, "{}", through.t);
    assert!(!b.front_face);
    assert!(!a.front_face);
    assert_eq!(a.normal, b.normal);
    assert_eq!(a.uv, b.uv);
    // the normal faces the ray: the sphere was hit from inside
    assert!(a.normal.z > 0 && a.normal.x > 0);
    assert!(matches!(a.material, Material::Metal(_)));
    assert_eq!(through.ray, down_z());
    // from outside the same instance shows its front face
    let mut outside = HitRecord::new(Ray { origin: v3(1.0, 0.0, 5.0), direction: v3(0.0, 0.0, -1.0) });
    assert!(i.closest_hit(&mut outside));
    assert!(outside.hit_data.unwrap().front_face);
    assert_eq!(outside.t, fx(3.0));
}

#[test]
fn sphere_through_the_centre_is_hit_at_distance_less_radius() {
    // along every axis, from several distances and with several radii
    let axes = [
        v3(1.0, 0.0, 0.0),
        v3(-1.0, 0.0, 0.0),
        v3(0.0, 1.0, 0.0),
        v3(0.0, -1.0, 0.0),
        v3(0.0, 0.0, 1.0),
        v3(0.0, 0.0, -1.0),
    ];
    for d in axes {
        for (distance, radius) in [(5.0, 1.0), (12.0, 2.5), (100.0, 0.125), (3.0, 3.0 - 0.5)] {
            let origin = v3(-7.0, 2.0, 3.0);
            let centre = origin.plus(&d.scale(fx(distance)));
            let s = Sphere::new(centre, fx(radius), grey());
            let ray = Ray { origin, direction: d };
            assert_eq!(s.distance(&ray, PRIMARY_T_MIN), Some(fx(distance - radius)));
            let mut hit = HitRecord::new(ray);
            assert!(s.closest_hit(&mut hit));
            assert_eq!(hit.t, fx(distance - radius));
            assert_eq!(hit.hit_data.unwrap().normal, d.neg());
            // from beyond the near point the far one is taken
            assert_eq!(s.distance(&ray, fx(distance)), Some(fx(distance + radius)));
        }
    }
}

#[test]
fn sphere_through_the_centre_with_a_longer_direction() {
    // the direction is twice as long, so the distances along it are half as long
    let s = Sphere::new(v3(0.0, 0.0, -10.0), fx(1.0), grey());
    let ray = Ray { origin: V3::zero(), direction: v3(0.0, 0.0, -2.0) };
    assert_eq!(s.distance(&ray, PRIMARY_T_MIN), Some(fx(4.5)));
    assert_eq!(s.distance(&ray, fx(5.0)), Some(fx(5.5)));
    // a direction of length five: the centre at ten, the radius two and a half
    let s = Sphere::new(v3(6.0, 8.0, 0.0), fx(2.5), grey());
    let ray = Ray { origin: V3::zero(), direction: v3(3.0, 4.0, 0.0) };
    assert_eq!(s.distance(&ray, PRIMARY_T_MIN), Some(fx(1.5)));
    assert_eq!(s.distance(&ray, fx(2.0)), Some(fx(2.5)));
}

#[test]
fn large_triangle_is_hit_within_its_box() {
    // the coordinates in the triangle are rounded down, so a triangle of many
    // units takes hits up to two millionths of its size beyond its edges;
    // its box is wider than that
    let t = Triangle::new(v3(0.0, 0.0, 0.0), v3(800.0, 0.0, 0.0), v3(0.0, 800.0, 0.0), grey());
    assert_eq!(t.bbox.min, V3::new(-3201, -3201, -1));
    assert_eq!(t.bbox.max, V3::new(fx(800.0) + 3201, fx(800.0) + 3201, 1));
    let ray = Ray {
        origin: V3::new(839414857, -1029428, 3145728),
        direction: V3::new(-184664, 343143, -1048576),
    };
    let mut hit = HitRecord::new(ray);
    assert!(t.closest_hit(&mut hit));
    assert_eq!(hit.t, fx(3.0));
    // the hit lies beyond the corner at 800, and within the box
    assert!(ray.point_at(hit.t).x > fx(800.0));
    let entry = t.bbox.hit(&ray, PRIMARY_T_MIN, INFINITY).unwrap();
    assert!(entry <= hit.t);
    let mut through = HitRecord::new(ray);
    let bvh = raytracer_lib::geometry::BVH::new(vec![Arc::new(Shape::Triangle(t))]);
    assert!(bvh.closest_hit(&mut through));
    assert_eq!(through.t, fx(3.0));
}
