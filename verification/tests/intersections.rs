use raytracer::intersections::{HitRegister, Intersect, RefractionBoundary};

fn t_code(t: f64) -> i64 {
    let b = t.to_bits() as i64;
    b ^ (((b >> 63) as u64) >> 1) as i64
}

#[test]
fn hit_register_finalises_hit() {
    let intersect1 = Intersect::new(t_code(-1.0), 0);
    let intersect2 = Intersect::new(t_code(2.0), 0);
    let intersect3 = Intersect::new(t_code(3.0), 0);
    let hit_register = HitRegister::from(vec![intersect1, intersect2, intersect3]);
    let hit = hit_register.finalise_hit().unwrap();
    assert_eq!(hit.t(), t_code(2.0));
}

#[test]
fn refractive_indices_at_various_intersections() {
    // Three overlapping glass spheres: the outer (identity 0, index 1.5)
    // spans times 2 and 6, the one nudged backward (identity 1, index 2.0)
    // spans 2.75 and 4.75, the one nudged forward (identity 2, index 2.5)
    // spans 3.25 and 5.25.
    let refractive_indices = [1.5, 2.0, 2.5];
    let medium_index = |m: Option<usize>| -> f64 {
        match m {
            Some(id) => refractive_indices[id],
            None => 1.0,
        }
    };

    let mut hit_register = HitRegister::from(vec![
        Intersect::new(t_code(2.0), 0),
        Intersect::new(t_code(2.75), 1),
        Intersect::new(t_code(3.25), 2),
        Intersect::new(t_code(4.75), 1),
        Intersect::new(t_code(5.25), 2),
        Intersect::new(t_code(6.0), 0),
    ]);
    hit_register.sort_intersections_by_t();

    let test_cases: [(usize, f64, f64); 6] = [
        (0, 1.0, 1.5),
        (1, 1.5, 2.0),
        (2, 2.0, 2.5),
        (3, 2.5, 2.5),
        (4, 2.5, 1.5),
        (5, 1.5, 1.0),
    ];
    for (idx, n1, n2) in test_cases {
        let refraction_boundary = hit_register.compute_refraction_boundary(idx);
        let got = (medium_index(refraction_boundary.n1), medium_index(refraction_boundary.n2));
        assert_eq!(got, (n1, n2), "{}", idx);
    }
}

#[test]
fn finalise_with_no_forward_hit() {
    let hit_register = HitRegister::from(vec![
        Intersect::new(t_code(-3.0), 0),
        Intersect::new(t_code(-0.5), 1),
    ]);
    assert!(hit_register.finalise_hit().is_none());
}

#[test]
fn finalise_of_empty_register() {
    assert!(HitRegister::empty().finalise_hit().is_none());
}

#[test]
fn finalise_reports_boundary_of_chosen_hit() {
    // The visible hit enters the object with identity 7 from the ambient medium.
    let hit_register = HitRegister::from(vec![
        Intersect::new(t_code(4.0), 7),
        Intersect::new(t_code(6.0), 7),
    ]);
    let hit = hit_register.finalise_hit().unwrap();
    assert_eq!(hit.t(), t_code(4.0));
    assert_eq!(hit.object(), 7);
    assert_eq!(hit.refraction_boundary(), RefractionBoundary { n1: None, n2: Some(7) });
}

#[test]
fn finalise_leaving_an_object() {
    // Only the exit lies ahead of the ray: the boundary leaves the object.
    let hit_register = HitRegister::from(vec![
        Intersect::new(t_code(-4.0), 7),
        Intersect::new(t_code(6.0), 7),
    ]);
    let hit = hit_register.finalise_hit().unwrap();
    assert_eq!(hit.t(), t_code(6.0));
    assert_eq!(hit.refraction_boundary(), RefractionBoundary { n1: Some(7), n2: None });
}

#[test]
fn sort_is_stable_for_equal_times() {
    let mut hit_register = HitRegister::from(vec![
        Intersect::new(t_code(5.0), 2),
        Intersect::new(t_code(5.0), 1),
        Intersect::new(t_code(1.0), 3),
        Intersect::new(t_code(5.0), 0),
    ]);
    hit_register.sort_intersections_by_t();
    let objects: Vec<usize> = hit_register.expose().iter().map(|itx| itx.object()).collect();
    assert_eq!(objects, vec![3, 2, 1, 0]);
}

#[test]
fn combine_registers_appends() {
    let mut left = HitRegister::from(vec![Intersect::new(t_code(1.0), 0)]);
    let right = HitRegister::from(vec![Intersect::new(t_code(2.0), 1)]);
    left.combine_registers(right);
    let objects: Vec<usize> = left.expose().iter().map(|itx| itx.object()).collect();
    assert_eq!(objects, vec![0, 1]);
}

#[test]
fn add_raw_intersect_records_in_order() {
    let mut reg = HitRegister::empty();
    reg.add_raw_intersect(Intersect::new(t_code(2.0), 5));
    reg.add_raw_intersect(Intersect::new(t_code(1.0), 6));
    assert_eq!(reg.expose().len(), 2);
    assert_eq!(reg.expose()[0].object(), 5);
    assert_eq!(reg.expose()[1].object(), 6);
}

#[test]
fn tangent_style_double_hit_keeps_both_roots() {
    // A grazing hit is recorded as a double root; both survive the sort and
    // the earlier one is finalised.
    let hit_register = HitRegister::from(vec![
        Intersect::new(t_code(5.0), 0),
        Intersect::new(t_code(5.0), 0),
    ]);
    let hit = hit_register.finalise_hit().unwrap();
    assert_eq!(hit.t(), t_code(5.0));
}
