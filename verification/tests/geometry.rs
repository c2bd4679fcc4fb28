use landgen::geometry::{
    ArcPoints, EquidistantPoints, Line, LinePoints, Point, PotSize, Rect, Size,
};

fn get_points(coords: &[(i32, i32)]) -> Vec<Point> {
    coords.iter().map(|(x, y)| Point::new(*x, *y)).collect()
}

fn collect_line(line: Line) -> Vec<Point> {
    let mut points = Vec::new();
    let mut walker = LinePoints::new(line);
    while let Some(p) = walker.next() {
        points.push(p);
    }
    points
}

#[test]
fn line_basic() {
    let line: Vec<Point> = collect_line(Line::new(Point::new(0, 0), Point::new(3, 3)));
    let v = get_points(&[(0, 0), (1, 1), (2, 2), (3, 3)]);

    assert_eq!(line, v);
}

#[test]
fn line_skewed() {
    let line: Vec<Point> = collect_line(Line::new(Point::new(0, 0), Point::new(5, -7)));
    let v = get_points(&[
        (0, 0),
        (1, -1),
        (2, -2),
        (2, -3),
        (3, -4),
        (4, -5),
        (4, -6),
        (5, -7),
    ]);

    assert_eq!(line, v);
}

#[test]
fn equidistant_full() {
    let n: Vec<Point> = EquidistantPoints::new(Point::new(1, 3)).points();
    let v = get_points(&[
        (1, 3),
        (1, -3),
        (-1, -3),
        (-1, 3),
        (3, 1),
        (3, -1),
        (-3, -1),
        (-3, 1),
    ]);

    assert_eq!(n, v);
}

#[test]
fn equidistant_half() {
    let n: Vec<Point> = EquidistantPoints::new(Point::new(2, 2)).points();
    let v = get_points(&[(2, 2), (2, -2), (-2, -2), (-2, 2)]);

    assert_eq!(n, v);
}

#[test]
fn line() {
    let l = Line::new(Point::new(1, 1), Point::new(5, 6));

    assert_eq!(l.center(), Point::new(3, 3));
}

#[test]
fn rect() {
    let r = Rect::from_box(10, 100, 0, 70);

    assert!(r.contains_inside(Point::new(99, 69)));
    assert!(!r.contains_inside(Point::new(100, 70)));

    assert_eq!(r.top_left(), Point::new(10, 0));
    assert_eq!(r.with_margin(12), Rect::from_box(22, 88, 12, 58));
}

#[test]
fn fit() {
    let r = Rect::from_box(10, 100, 0, 70);

    assert_eq!(Point::new(0, -10).clamp(&r), Point::new(10, 0));
    assert_eq!(Point::new(1000, 1000).clamp(&r), Point::new(100, 70));
}

#[test]
fn point_arithmetic() {
    let p = Point::new(3, -4);
    assert_eq!(p.abs(), Point::new(3, 4));
    assert_eq!(p.signum(), Point::new(1, -1));
    assert_eq!(p.max_norm(), 4);
    assert_eq!(p.dot(Point::new(2, 2)), -2);
    assert_eq!(p.cross(Point::new(1, 1)), 7);
    assert_eq!(p.rotate90(), Point::new(-4, -3));
    assert_eq!(p.rotate180(), Point::new(-3, 4));
    assert_eq!(p.rotate270(), Point::new(4, 3));
    assert_eq!(Point::new(4, 2).tangent_mul(6), 3);
    assert_eq!(Point::new(4, 2).cotangent_mul(5), 10);
    assert_eq!(Point::new(-7, 2).tangent_mul(3), 0);
    // the smallest product divides by anything but minus one
    assert_eq!(Point::new(2, 1).tangent_mul(i32::MIN), -1073741824);
    assert_eq!(Point::new(1, 1).tangent_mul(i32::MIN), i32::MIN);
}

#[test]
fn sizes_and_powers_of_two() {
    let s = Size::new(5, 3);
    assert_eq!(s.area(), 15);
    assert_eq!(s.linear_index(2, 1), 7);
    assert!(!s.is_power_of_two());
    assert!(Size::new(4, 8).is_power_of_two());
    assert!(s.as_power_of_two().is_none());
    let p = s.next_power_of_two();
    assert_eq!(p.width(), 8);
    assert_eq!(p.height(), 4);
    assert_eq!(Size::new(0, 1).next_power_of_two().width(), 1);
    let q = PotSize::new(16, 2).unwrap();
    assert_eq!(q.area(), 32);
    let mask = q.to_mask();
    assert!(mask.contains_x(15));
    assert!(!mask.contains_x(16));
    assert!(mask.contains_y(1));
    assert!(!mask.contains_y(2));
    // negative coordinates cast to large unsigned words and are never inside
    assert!(mask.contains(Point::new(3, 1)));
    assert!(!mask.contains(Point::new(-1, 0)));
    assert!(!mask.contains(Point::new(0, -5)));
    let back = mask.to_size();
    assert_eq!(back.width(), 16);
    assert_eq!(back.height(), 2);
    let g = q.to_grid_index();
    assert_eq!(g.map(Point::new(37, 5)), Point::new(2, 2));
    assert_eq!(g.map(Point::new(-1, -1)), Point::new(-1, -1));
}

#[test]
fn polygon_ring() {
    let verts = get_points(&[(0, 0), (4, 0), (4, 4)]);
    let mut poly = landgen::geometry::Polygon::new(&verts);
    assert_eq!(poly.edges_count(), 3);
    let e = poly.get_edge(2);
    assert_eq!(e.start, Point::new(4, 4));
    assert_eq!(e.end, Point::new(0, 0));
    poly.split_edge(0, Point::new(2, 0));
    assert_eq!(poly.edges_count(), 4);
    assert_eq!(poly.iter(), get_points(&[(0, 0), (2, 0), (4, 0), (4, 4)]));
    let edges = poly.iter_edges();
    assert_eq!(edges.len(), 4);
    assert_eq!(edges[1].start, Point::new(2, 0));
}

#[test]
fn arc_points_small_radius() {
    let mut arc = ArcPoints::new(5);
    let mut pts = Vec::new();
    while let Some(p) = arc.next() {
        pts.push(p);
    }
    assert_eq!(pts, get_points(&[(0, 5), (1, 5), (2, 5), (3, 4)]));
}
