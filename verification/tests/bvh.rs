use raytracer_lib::geometry::bvh::{Axis, MAX_SHAPES};
use raytracer_lib::geometry::{
    BVHNode, Cuboid, Instance, Mesh, Quad, Shape, Sphere, Triangle, BVH,
};
use raytracer_lib::hit_record::HitRecord;
use raytracer_lib::material::{Lambertian, Material};
use raytracer_lib::math::{Ray, Rotation3, V3};
use raytracer_lib::scalar::{Real, INFINITY};
use raytracer_lib::texture::{SolidColor, Texture};
use std::sync::Arc;

fn fx(x: f64) -> Real {
    (x * 1048576.0).round() as Real
}

fn v3(x: f64, y: f64, z: f64) -> V3 {
    V3::new(fx(x), fx(y), fx(z))
}

fn grey() -> Arc<Material> {
    Arc::new(Material::Lambertian(Lambertian::new(Arc::new(Texture::SolidColor(
        SolidColor::new(v3(0.5, 0.5, 0.5)),
    )))))
}

fn spheres(n: usize) -> Vec<Arc<Shape>> {
    // centres scattered by a little generator of its own, so that the order
    // of the list is not the order along any axis
    let mut state: u64 = 12345;
    let mut next = move || {
        state = state.wrapping_mul(6364136223846793005).wrapping_add(1442695040888963407);
        ((state >> 33) % 2000) as f64 / 100.0 - 10.0
    };
    let mut shapes: Vec<Arc<Shape>> = Vec::new();
    for _ in 0..n {
        let c = v3(next(), next(), next() - 20.0);
        shapes.push(Arc::new(Shape::Sphere(Sphere::new(c, fx(1.0), grey()))));
    }
    shapes
}

fn linear_scan<'a>(shapes: &'a [Arc<Shape>], hit: &mut HitRecord<'a>) -> bool {
    let mut any = false;
    for s in shapes {
        if s.closest_hit(hit) {
            any = true;
        }
    }
    any
}

fn count_shapes(node: &BVHNode) -> usize {
    let mut n = node.shapes.len();
    if let Some(l) = &node.left {
        n += count_shapes(l);
    }
    if let Some(r) = &node.right {
        n += count_shapes(r);
    }
    n
}

fn check_node(node: &BVHNode, axis: Axis) {
    if node.left.is_none() {
        assert!(node.right.is_none());
        assert!(node.shapes.len() < MAX_SHAPES);
        for s in &node.shapes {
            let b = s.get_bbox();
            assert!(node.bbox.min.x <= b.min.x && b.max.x <= node.bbox.max.x);
            assert!(node.bbox.min.y <= b.min.y && b.max.y <= node.bbox.max.y);
            assert!(node.bbox.min.z <= b.min.z && b.max.z <= node.bbox.max.z);
        }
        return;
    }
    assert!(node.shapes.is_empty());
    let l = node.left.as_ref().unwrap();
    let r = node.right.as_ref().unwrap();
    let nl = count_shapes(l);
    let nr = count_shapes(r);
    assert!(nl + nr >= MAX_SHAPES);
    assert_eq!(nl, (nl + nr) / 2);
    let key = |b: &raytracer_lib::geometry::BBox| match axis {
        Axis::X => b.centroid.x,
        Axis::Y => b.centroid.y,
        Axis::Z => b.centroid.z,
    };
    assert!(key(&l.bbox) <= key(&r.bbox) || nl + nr > 2 * (MAX_SHAPES - 1));
    for child in [l, r] {
        assert!(node.bbox.min.x <= child.bbox.min.x && child.bbox.max.x <= node.bbox.max.x);
        assert!(node.bbox.min.y <= child.bbox.min.y && child.bbox.max.y <= node.bbox.max.y);
        assert!(node.bbox.min.z <= child.bbox.min.z && child.bbox.max.z <= node.bbox.max.z);
        check_node(child, axis.next());
    }
}

#[test]
fn axes_cycle() {
    assert_eq!(Axis::X.next(), Axis::Y);
    assert_eq!(Axis::Y.next(), Axis::Z);
    assert_eq!(Axis::Z.next(), Axis::X);
}

#[test]
fn few_shapes_make_a_leaf() {
    for n in [0usize, 1, 2, 3] {
        let bvh = BVH::new(spheres(n));
        assert_eq!(bvh.root.shapes.len(), n);
        assert!(bvh.root.left.is_none());
        assert!(bvh.root.right.is_none());
    }
}

#[test]
fn four_shapes_are_split_two_and_two() {
    let shapes = spheres(4);
    let mut xs: Vec<Real> = shapes.iter().map(|s| s.get_centroid().x).collect();
    xs.sort();
    let bvh = BVH::new(shapes);
    assert!(bvh.root.shapes.is_empty());
    let l = bvh.root.left.as_ref().unwrap();
    let r = bvh.root.right.as_ref().unwrap();
    assert!(l.left.is_none() && l.right.is_none());
    assert!(r.left.is_none() && r.right.is_none());
    let lx: Vec<Real> = l.shapes.iter().map(|s| s.get_centroid().x).collect();
    let rx: Vec<Real> = r.shapes.iter().map(|s| s.get_centroid().x).collect();
    assert_eq!(lx, xs[..2].to_vec());
    assert_eq!(rx, xs[2..].to_vec());
}

#[test]
fn five_shapes_are_split_along_x() {
    let shapes = spheres(5);
    let mut xs: Vec<Real> = shapes.iter().map(|s| s.get_centroid().x).collect();
    xs.sort();
    let bvh = BVH::new(shapes);
    assert!(bvh.root.shapes.is_empty());
    let l = bvh.root.left.as_ref().unwrap();
    let r = bvh.root.right.as_ref().unwrap();
    let lx: Vec<Real> = l.shapes.iter().map(|s| s.get_centroid().x).collect();
    let rx: Vec<Real> = r.shapes.iter().map(|s| s.get_centroid().x).collect();
    assert_eq!(lx, xs[..2].to_vec());
    assert_eq!(rx, xs[2..].to_vec());
}

#[test]
fn hierarchy_keeps_every_shape_in_nested_boxes() {
    for n in [0usize, 1, 4, 5, 9, 33, 100] {
        let bvh = BVH::new(spheres(n));
        assert_eq!(count_shapes(&bvh.root), n);
        check_node(&bvh.root, Axis::X);
    }
}

#[test]
fn empty_hierarchy_is_never_hit() {
    let bvh = BVH::new(Vec::new());
    let mut hit = HitRecord::new(Ray { origin: V3::zero(), direction: v3(0.0, 0.0, -1.0) });
    assert!(!bvh.closest_hit(&mut hit));
    assert_eq!(hit.t, INFINITY);
    assert!(bvh.get_closest_hit_data(&mut hit).is_none());
    assert_eq!(bvh.get_bbox().min, V3::zero());
    assert_eq!(bvh.get_bbox().max, V3::zero());
}

#[test]
fn hierarchy_agrees_with_linear_scan() {
    let shapes = spheres(60);
    let bvh = BVH::new(shapes.clone());
    let mut hits = 0;
    for i in -12..=12 {
        for j in -12..=12 {
            let ray = Ray {
                origin: v3(0.0, 0.0, 5.0),
                direction: v3(i as f64 / 24.0, j as f64 / 24.0, -1.0),
            };
            let mut a = HitRecord::new(ray);
            let mut b = HitRecord::new(ray);
            let hit_a = bvh.closest_hit(&mut a);
            let hit_b = linear_scan(&shapes, &mut b);
            assert_eq!(hit_a, hit_b, "ray {} {}", i, j);
            assert_eq!(a.t, b.t, "ray {} {}", i, j);
            assert_eq!(a.hit_data.map(|d| d.normal), b.hit_data.map(|d| d.normal));
            if hit_a {
                hits += 1;
            }
        }
    }
    assert!(hits > 20, "only {} rays hit anything", hits);
}

#[test]
fn hierarchy_agrees_with_linear_scan_on_mixed_shapes() {
    let mut shapes = spheres(10);
    shapes.push(Arc::new(Shape::Cuboid(Cuboid::new(
        v3(-3.0, -3.0, -12.0),
        v3(-1.0, -1.0, -10.0),
        grey(),
    ))));
    shapes.push(Arc::new(Shape::Triangle(Triangle::new(
        v3(0.0, 0.0, -8.0),
        v3(4.0, 0.0, -8.0),
        v3(0.0, 4.0, -9.0),
        grey(),
    ))));
    shapes.push(Arc::new(Shape::Quad(Quad::new(
        v3(-6.0, 2.0, -15.0),
        v3(3.0, 0.0, 0.0),
        v3(0.0, 3.0, 1.0),
        grey(),
    ))));
    let bvh = BVH::new(shapes.clone());
    for i in -10..=10 {
        for j in -10..=10 {
            let ray = Ray {
                origin: v3(0.0, 0.0, 5.0),
                direction: v3(i as f64 / 16.0, j as f64 / 16.0, -1.0),
            };
            let mut a = HitRecord::new(ray);
            let mut b = HitRecord::new(ray);
            assert_eq!(bvh.closest_hit(&mut a), linear_scan(&shapes, &mut b));
            assert_eq!(a.t, b.t);
        }
    }
}

#[test]
fn closest_hit_data_is_handed_out() {
    let bvh = BVH::new(vec![Arc::new(Shape::Sphere(Sphere::new(
        v3(0.0, 0.0, -5.0),
        fx(1.0),
        grey(),
    )))]);
    let mut hit = HitRecord::new(Ray { origin: V3::zero(), direction: v3(0.0, 0.0, -1.0) });
    let data = bvh.get_closest_hit_data(&mut hit).unwrap();
    assert_eq!(data.normal, v3(0.0, 0.0, 1.0));
    assert_eq!(hit.t, fx(4.0));
    assert!(hit.hit_data.is_none());
    assert_eq!(bvh.root.bbox().min, v3(-1.0, -1.0, -6.0));
}

#[test]
fn a_large_mesh_is_built_and_hit() {
    // a sheet of fifty by fifty squares at z = -5, two triangles each
    let side = 50u32;
    let mut positions = Vec::new();
    for j in 0..=side {
        for i in 0..=side {
            positions.push(v3(i as f64 / 5.0 - 5.0, j as f64 / 5.0 - 5.0, -5.0));
        }
    }
    let mut indices: Vec<u32> = Vec::new();
    for j in 0..side {
        for i in 0..side {
            let a = j * (side + 1) + i;
            let (b, c, d) = (a + 1, a + side + 1, a + side + 2);
            indices.extend_from_slice(&[a, b, d, a, d, c]);
        }
    }
    let mesh = Mesh::new(&positions, &indices, grey());
    assert_eq!(count_shapes(&mesh.bvh.root), 5000);
    check_node(&mesh.bvh.root, Axis::X);
    let shape = Shape::Mesh(mesh);
    let mut hits = 0;
    for k in 0..200 {
        let x = (k % 20) as f64 / 2.0 - 4.9;
        let y = (k / 20) as f64 - 4.9;
        let mut hit = HitRecord::new(Ray { origin: v3(x, y, 0.0), direction: v3(0.0, 0.0, -1.0) });
        if shape.closest_hit(&mut hit) {
            assert_eq!(hit.t, fx(5.0));
            hits += 1;
        }
    }
    assert_eq!(hits, 200);
    let mut miss = HitRecord::new(Ray { origin: v3(6.0, 0.0, 0.0), direction: v3(0.0, 0.0, -1.0) });
    assert!(!shape.closest_hit(&mut miss));
}

#[test]
fn hierarchy_over_instances_and_meshes_agrees_with_linear_scan() {
    let ball = Arc::new(Shape::Sphere(Sphere::new(V3::zero(), fx(1.0), grey())));
    let mut shapes: Vec<Arc<Shape>> = Vec::new();
    for k in 0..12 {
        let at = v3((k % 4) as f64 * 3.0 - 4.5, (k / 4) as f64 * 3.0 - 3.0, -10.0 - k as f64);
        let scale = v3(1.0 + (k % 3) as f64 * 0.5, 1.0, 0.5 + (k % 2) as f64);
        shapes.push(Arc::new(Shape::Instance(
            Instance::new(ball.clone(), at, Rotation3::identity(), scale, grey()).unwrap(),
        )));
    }
    let positions = vec![v3(-8.0, -8.0, -30.0), v3(8.0, -8.0, -30.0), v3(8.0, 8.0, -30.0), v3(-8.0, 8.0, -30.0)];
    shapes.push(Arc::new(Shape::Mesh(Mesh::new(&positions, &vec![0, 1, 2, 0, 2, 3], grey()))));
    let bvh = BVH::new(shapes.clone());
    let mut hits = 0;
    for i in -15..=15 {
        for j in -15..=15 {
            let ray = Ray {
                origin: v3(0.0, 0.0, 5.0),
                direction: v3(i as f64 / 40.0, j as f64 / 40.0, -1.0),
            };
            let mut a = HitRecord::new(ray);
            let mut b = HitRecord::new(ray);
            assert_eq!(bvh.closest_hit(&mut a), linear_scan(&shapes, &mut b));
            assert_eq!(a.t, b.t);
            if a.hit_data.is_some() {
                hits += 1;
            }
        }
    }
    assert!(hits > 100);
}

fn height(node: &BVHNode) -> usize {
    let l = node.left.as_ref().map_or(0, |n| height(n) + 1);
    let r = node.right.as_ref().map_or(0, |n| height(n) + 1);
    l.max(r)
}

#[test]
fn hierarchy_is_balanced() {
    // at most three shapes times two to the number of levels
    for (n, levels) in [
        (0usize, 0usize),
        (3, 0),
        (4, 1),
        (6, 1),
        (7, 2),
        (12, 2),
        (13, 3),
        (24, 3),
        (25, 4),
        (96, 5),
        (97, 6),
    ] {
        let bvh = BVH::new(spheres(n));
        assert!(height(&bvh.root) <= levels, "{} shapes, height {}", n, height(&bvh.root));
    }
}
