use raytracer::csg::{Csg, CsgOperation};
use raytracer::intersections::{HitRegister, Intersect};
use raytracer::shapes::{Group, Shape};

fn t_code(t: f64) -> i64 {
    let b = t.to_bits() as i64;
    b ^ (((b >> 63) as u64) >> 1) as i64
}

#[test]
fn evaluate_intersections_for_union() {
    let test_cases = [
        (true, true, true, false),
        (true, true, false, true),
        (true, false, true, false),
        (true, false, false, true),
        (false, true, true, false),
        (false, true, false, false),
        (false, false, true, true),
        (false, false, false, true),
    ];
    for (lhit, inl, inr, result) in test_cases {
        assert_eq!(Csg::union_evaluate_intersection(lhit, inl, inr), result);
    }
}

#[test]
fn evaluate_intersections_for_intersect() {
    let test_cases = [
        (true, true, true, true),
        (true, true, false, false),
        (true, false, true, true),
        (true, false, false, false),
        (false, true, true, true),
        (false, true, false, true),
        (false, false, true, false),
        (false, false, false, false),
    ];
    for (lhit, inl, inr, result) in test_cases {
        assert_eq!(Csg::intersect_evaluate_intersection(lhit, inl, inr), result);
    }
}

#[test]
fn evaluate_intersections_for_difference() {
    let test_cases = [
        (true, true, true, false),
        (true, true, false, true),
        (true, false, true, false),
        (true, false, false, true),
        (false, true, true, true),
        (false, true, false, true),
        (false, false, true, false),
        (false, false, false, false),
    ];
    for (lhit, inl, inr, result) in test_cases {
        assert_eq!(Csg::difference_evaluate_intersection(lhit, inl, inr), result);
    }
}

#[test]
fn filter_list_of_intersections() {
    // The left shape is the sphere (identity 0), the right the cube (identity 1).
    let test_cases = [
        (CsgOperation::Union, 0.0, 3.0),
        (CsgOperation::Intersect, 1.0, 2.0),
        (CsgOperation::Difference, 0.0, 1.0),
    ];

    for (operation, x0, x1) in test_cases {
        let csg = Csg::new(operation, Shape::Primitive(0), Shape::Primitive(1));
        let hit_register = HitRegister::from(vec![
            Intersect::new(t_code(0.0), 0),
            Intersect::new(t_code(1.0), 1),
            Intersect::new(t_code(2.0), 0),
            Intersect::new(t_code(3.0), 1),
        ]);

        let filtered_intersections = csg.evaluate_intersections(hit_register);
        let t_list: Vec<i64> = filtered_intersections.expose().iter().map(|itx| itx.t()).collect();
        assert_eq!(t_list.len(), 2);
        assert_eq!(t_code(x0), t_list[0]);
        assert_eq!(t_code(x1), t_list[1]);
    }
}

#[test]
fn filter_sorts_before_evaluating() {
    // Intersections arrive unsorted; evaluation must walk them in time order.
    let csg = Csg::new(CsgOperation::Union, Shape::Primitive(0), Shape::Primitive(1));
    let hit_register = HitRegister::from(vec![
        Intersect::new(t_code(3.0), 1),
        Intersect::new(t_code(0.0), 0),
        Intersect::new(t_code(2.0), 0),
        Intersect::new(t_code(1.0), 1),
    ]);
    let filtered = csg.evaluate_intersections(hit_register);
    let t_list: Vec<i64> = filtered.expose().iter().map(|itx| itx.t()).collect();
    assert_eq!(t_list, vec![t_code(0.0), t_code(3.0)]);
}

#[test]
fn filter_sees_through_nested_groups() {
    // The left subtree is a group holding primitives 0 and 2.
    let left = Shape::Group(Group { objects: vec![Shape::Primitive(0), Shape::Primitive(2)] });
    let csg = Csg::new(CsgOperation::Intersect, left, Shape::Primitive(1));
    let hit_register = HitRegister::from(vec![
        Intersect::new(t_code(0.0), 2),
        Intersect::new(t_code(1.0), 1),
        Intersect::new(t_code(2.0), 0),
        Intersect::new(t_code(3.0), 1),
    ]);
    let filtered = csg.evaluate_intersections(hit_register);
    let t_list: Vec<i64> = filtered.expose().iter().map(|itx| itx.t()).collect();
    assert_eq!(t_list, vec![t_code(1.0), t_code(2.0)]);
}

#[test]
fn csg_getters_return_construction_values() {
    let csg = Csg::new(CsgOperation::Difference, Shape::Primitive(4), Shape::Primitive(5));
    assert_eq!(csg.csg_operation(), CsgOperation::Difference);
    assert!(csg.lshape().contains(4));
    assert!(!csg.lshape().contains(5));
    assert!(csg.rshape().contains(5));
}
