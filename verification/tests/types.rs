use precise_isovist::{get_id, Entity, IdCounter, Line, Point};

fn from_coords(x1: f64, y1: f64, x2: f64, y2: f64, ids: &mut IdCounter) -> Line<f64> {
    let a = Point::new_ordered(x1, y1, ids);
    let b = Point::new_ordered(x2, y2, ids);
    Line::from_points(&a, &b, ids)
}

#[test]
fn types_test_line_conversion() {
    let mut ids = IdCounter::new();
    let a = Point::new_ordered(1.0, 1.0, &mut ids);
    let b = Point::new_ordered(0.0, 2.0, &mut ids);

    let line1 = Line::from_points(&a, &b, &mut ids);

    // check a is still valid!
    assert!(a.x == 1.0);

    // check the line
    assert!(line1.a.x == 1.0);
    assert!(line1.a.y == 1.0);
    assert_eq!(a.id(), line1.a.id());
    assert!(line1.b.x == 0.0);
    assert!(line1.b.y == 2.0);
    assert_eq!(b.id(), line1.b.id());

    let line2 = from_coords(0.0, 1.0, 1.5, 0.2, &mut ids);
    assert!(line2.a.x == 0.0);
    assert!(line2.a.y == 1.0);
    assert!(line2.b.x == 1.5);
    assert!(line2.b.y == 0.2);

    assert_eq!(line1.id() + 3, line2.id())
}

#[test]
fn ids_start_at_zero_and_count_up() {
    let mut ids = IdCounter::new();
    assert_eq!(get_id(&mut ids), 0);
    assert_eq!(get_id(&mut ids), 1);
    let p = Point::new_ordered(3, 4, &mut ids);
    assert_eq!(p.id(), 2);
    assert_eq!((p.x, p.y), (3, 4));
    assert_eq!(get_id(&mut ids), 3);
}

#[test]
fn line_copies_its_ends() {
    let mut ids = IdCounter::new();
    let a = Point::new_ordered(-1, 5, &mut ids);
    let b = Point::new_ordered(7, 2, &mut ids);
    let l = Line::from_points(&a, &b, &mut ids);
    assert_eq!(l.a, a);
    assert_eq!(l.b, b);
    assert_eq!(l.id(), 2);
}
