use raytracer::builder::{Buildable, BuildInto, ConsumingBuilder, Preset};
use raytracer::canvas::Pixel;
use raytracer::csg::{Csg, CsgOperation};
use raytracer::obj::face_triangulation;
use raytracer::shapes::{Group, GroupBuilder, Shape};
use raytracer::transform::Axis;
use raytracer::view::{Camera, RayGenerator};

#[test]
fn primitive_contains_only_itself() {
    let shape = Shape::Primitive(3);
    assert!(shape.contains(3));
    assert!(!shape.contains(2));
}

#[test]
fn group_contains_descendants() {
    let inner = Shape::Group(Group { objects: vec![Shape::Primitive(1), Shape::Primitive(2)] });
    let outer = Shape::Group(Group { objects: vec![Shape::Primitive(0), inner] });
    assert!(outer.contains(0));
    assert!(outer.contains(1));
    assert!(outer.contains(2));
    assert!(!outer.contains(3));
}

#[test]
fn empty_group_contains_nothing() {
    let shape = Shape::Group(Group { objects: vec![] });
    assert!(!shape.contains(0));
}

#[test]
fn csg_node_contains_both_subtrees() {
    let csg = Csg::new(CsgOperation::Union, Shape::Primitive(1), Shape::Primitive(2));
    let shape = Shape::Csg(Box::new(csg));
    assert!(shape.contains(1));
    assert!(shape.contains(2));
    assert!(!shape.contains(0));
}

#[test]
fn group_builder_accumulates_objects() {
    let group = Group::builder()
        .add_object(Shape::Primitive(4))
        .add_object(Shape::Primitive(5))
        .build();
    assert_eq!(group.objects().len(), 2);
    assert!(group.objects()[0].contains(4));
    assert!(group.objects()[1].contains(5));
}

#[test]
fn group_builder_set_objects_replaces() {
    let group = GroupBuilder::new()
        .add_object(Shape::Primitive(9))
        .set_objects(vec![Shape::Primitive(1)])
        .build();
    assert_eq!(group.objects().len(), 1);
    assert!(group.objects()[0].contains(1));
}

#[test]
fn group_builder_builds_into_shape() {
    let shape: Shape = GroupBuilder::new().add_object(Shape::Primitive(8)).build_into();
    assert!(shape.contains(8));
}

#[test]
fn triangulate_triangle_face() {
    let triangles = face_triangulation(vec![1, 2, 3]);
    assert_eq!(triangles, vec![[1, 2, 3]]);
}

#[test]
fn triangulate_polygon_face_by_fan() {
    let triangles = face_triangulation(vec![1, 2, 3, 4, 5]);
    assert_eq!(triangles, vec![[1, 2, 3], [1, 3, 4], [1, 4, 5]]);
}

#[test]
fn preset_pixel_is_black() {
    assert_eq!(Pixel::preset(), Pixel::new(0, 0, 0));
}

#[test]
fn axes_are_distinct() {
    assert_ne!(Axis::X, Axis::Y);
    assert_ne!(Axis::Y, Axis::Z);
    assert_ne!(Axis::X, Axis::Z);
}

struct FixedSize {
    hsize: usize,
    vsize: usize,
}

impl RayGenerator for FixedSize {
    fn canvas_size(&self) -> (usize, usize) {
        (self.hsize, self.vsize)
    }
}

#[test]
fn camera_keeps_its_ray_generator() {
    let camera = Camera::new(FixedSize { hsize: 11, vsize: 7 });
    assert_eq!(camera.ray_generator().canvas_size(), (11, 7));
    assert_eq!(camera.ray_generator.canvas_size(), (11, 7));
}
