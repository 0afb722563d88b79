use precise_isovist::{find_isovist, Border, Entity, IdCounter, IdSet, Intersection, Point, ScaleFactor};

fn at(x: i32, y: i32, lines: &[u32], ids: &mut IdCounter) -> Intersection<i32> {
    let mut set = IdSet::new();
    for l in lines {
        set.insert(*l);
    }
    Intersection { point: Point::new_ordered(x, y, ids), scale_factor: ScaleFactor::Number(1), lines: set }
}

#[test]
fn square_isovist_has_four_bounded_borders() {
    let mut ids = IdCounter::new();
    // the corners of a square, each on the two walls that meet there
    let corners = vec![
        at(0, 1, &[10, 11], &mut ids),
        at(1, 1, &[11, 12], &mut ids),
        at(1, 0, &[12, 13], &mut ids),
        at(0, 0, &[13, 10], &mut ids),
    ];
    let borders = find_isovist(&corners, &mut ids).unwrap();
    assert_eq!(borders.len(), 4);
    assert!(borders.iter().all(|b| b.is_bounded));
    // the border closes: each stretch starts where the one before ends
    for k in 0..4 {
        assert_eq!(borders[k].line.b, borders[(k + 1) % 4].line.a);
        assert_eq!(borders[k].line.a, corners[k].point);
    }
    // line identifiers follow the points' ones, in order
    let first = borders[0].line.id();
    for (k, b) in borders.iter().enumerate() {
        assert_eq!(b.line.id(), first + k as u32);
    }
    assert_eq!(first, 4);
}

#[test]
fn unshared_lines_make_unbounded_borders() {
    let mut ids = IdCounter::new();
    let points = vec![at(0, 0, &[1], &mut ids), at(2, 0, &[2], &mut ids), at(1, 2, &[2, 3], &mut ids)];
    let borders: Vec<Border<i32>> = find_isovist(&points, &mut ids).unwrap();
    let bounded: Vec<bool> = borders.iter().map(|b| b.is_bounded).collect();
    assert_eq!(bounded, vec![false, true, false]);
    assert_eq!(borders[0].bound_label(), "unbounded");
    assert_eq!(borders[1].bound_label(), "bounded");
}

#[test]
fn too_few_points_make_no_isovist() {
    let mut ids = IdCounter::new();
    let points = vec![at(0, 0, &[1], &mut ids), at(2, 0, &[1], &mut ids)];
    let err = find_isovist(&points, &mut ids).unwrap_err();
    assert_eq!(err.msg, "Too few points to construct isovist");
    // no identifier was used up
    assert_eq!(precise_isovist::get_id(&mut ids), 2);
    assert!(find_isovist::<i32>(&vec![], &mut ids).is_err());
}

#[test]
fn border_from_intersections_takes_the_points() {
    let mut ids = IdCounter::new();
    let a = at(0, 0, &[1, 2], &mut ids);
    let b = at(5, 5, &[2], &mut ids);
    let border = Border::from_intersections(&a, &b, &mut ids);
    assert!(border.is_bounded);
    assert_eq!(border.line.a, a.point);
    assert_eq!(border.line.b, b.point);
    assert_eq!(border.line.id(), 2);
    let c = at(1, 1, &[3], &mut ids);
    assert!(!Border::from_intersections(&a, &c, &mut ids).is_bounded);
}
