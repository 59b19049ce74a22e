use copc_rs::bounds::Bounds;

#[test]
fn boxes_that_share_a_face_intersect() {
    let a = Bounds::new(0, 0, 0, 10, 10, 10);
    let b = Bounds::new(10, 0, 0, 20, 10, 10);
    assert!(a.intersects(&b));
    assert!(b.intersects(&a));
}

#[test]
fn boxes_apart_on_one_axis_do_not_intersect() {
    let a = Bounds::new(0, 0, 0, 10, 10, 10);
    for b in [
        Bounds::new(11, 0, 0, 20, 10, 10),
        Bounds::new(0, 11, 0, 10, 20, 10),
        Bounds::new(0, 0, 11, 10, 10, 20),
        Bounds::new(-20, 0, 0, -1, 10, 10),
        Bounds::new(0, -20, 0, 10, -1, 10),
        Bounds::new(0, 0, -20, 10, 10, -1),
    ] {
        assert!(!a.intersects(&b));
        assert!(!b.intersects(&a));
    }
}

#[test]
fn intersection_commutes_and_is_reflexive() {
    let boxes = [
        Bounds::new(0, 0, 0, 1, 1, 1),
        Bounds::new(1, 1, 1, 5, 5, 5),
        Bounds::new(-3, 2, 0, 0, 3, 9),
        Bounds::new(6, 6, 6, 6, 6, 6),
    ];
    for a in boxes.iter() {
        assert!(a.intersects(a));
        for b in boxes.iter() {
            assert_eq!(a.intersects(b), b.intersects(a));
        }
    }
}

#[test]
fn containment_includes_both_faces() {
    let a = Bounds::new(0, 0, 0, 10, 10, 10);
    assert!(a.contains_point(0, 0, 0));
    assert!(a.contains_point(10, 10, 10));
    assert!(a.contains_point(5, 0, 10));
    assert!(!a.contains_point(11, 5, 5));
    assert!(!a.contains_point(5, -1, 5));
    assert!(!a.contains_point(5, 5, 11));
}

#[test]
fn default_box_is_empty_and_expands_to_a_point() {
    let mut b = Bounds::default();
    assert_eq!(
        b,
        Bounds::new(i64::MAX, i64::MAX, i64::MAX, i64::MIN, i64::MIN, i64::MIN)
    );
    b.expand_xyz(3, -4, 5);
    assert_eq!(b, Bounds::new(3, -4, 5, 3, -4, 5));
    b.expand_xyz(1, 2, 9);
    assert_eq!(b, Bounds::new(1, -4, 5, 3, 2, 9));
    b.reset();
    assert_eq!(b, Bounds::default());
}

#[test]
fn expand_and_sum_give_the_box_around_both() {
    let a = Bounds::new(0, 0, 0, 1, 1, 1);
    let b = Bounds::new(-5, 1, 0, 0, 7, 1);
    let mut c = a;
    c.expand(&b);
    assert_eq!(c, Bounds::new(-5, 0, 0, 1, 7, 1));
    assert_eq!(Bounds::sum(a, &b), c);
    assert_eq!(Bounds::sum(b, &a), c);
}

#[test]
fn cube_has_the_longest_side_and_holds_the_box() {
    let b = Bounds::new(0, 0, 0, 1000, 10, 100);
    let c = b.cube().unwrap();
    assert_eq!(c, Bounds::new(0, -495, -450, 1000, 505, 550));
}

#[test]
fn cube_centres_odd_differences_downwards() {
    let b = Bounds::new(0, 0, 0, 5, 2, 0);
    // side 5; y: (0 + 2 - 5) / 2 rounded down is -2; z: (0 + 0 - 5) / 2 is -3
    assert_eq!(b.cube(), Some(Bounds::new(0, -2, -3, 5, 3, 2)));
}

#[test]
fn cube_of_a_cube_is_itself() {
    let b = Bounds::new(-8, -8, -8, 8, 8, 8);
    assert_eq!(b.cube(), Some(b));
}

#[test]
fn cube_that_leaves_the_grid_is_none() {
    let b = Bounds::new(i64::MIN, 0, 0, i64::MAX, 1, 1);
    assert_eq!(b.cube(), None);
}
