use rasterboy::math::ScreenCoordinate;
use rasterboy::raster::{bounding_box, covers, is_top_left, pixel_index, triangle_edge, CoverageScan, Sign};

fn sc(x: i32, y: i32) -> ScreenCoordinate {
    ScreenCoordinate { x, y }
}

fn sign(v: i32) -> Sign {
    if v > 0 {
        Sign::Positive
    } else if v < 0 {
        Sign::Negative
    } else {
        Sign::Zero
    }
}

fn owns(from: ScreenCoordinate, to: ScreenCoordinate) -> bool {
    // edge vectors in a y-up space, as the projected coordinates have them
    is_top_left(sign(to.x - from.x), sign(from.y - to.y))
}

fn covered_by(p: ScreenCoordinate, v: [ScreenCoordinate; 3]) -> bool {
    covers(p, v[0], v[1], v[2], owns(v[1], v[2]), owns(v[2], v[0]), owns(v[0], v[1]))
}

#[test]
fn edge_function_values() {
    assert_eq!(triangle_edge(sc(0, 0), sc(0, 0), sc(10, 0)), 0);
    assert_eq!(triangle_edge(sc(5, 5), sc(0, 0), sc(10, 0)), 50);
    assert_eq!(triangle_edge(sc(5, -5), sc(0, 0), sc(10, 0)), -50);
    assert_eq!(
        triangle_edge(sc(i32::MAX, i32::MIN), sc(i32::MIN, i32::MAX), sc(i32::MAX, i32::MIN)),
        0
    );
}

#[test]
fn edge_function_does_not_overflow() {
    let big = triangle_edge(sc(i32::MAX, i32::MAX), sc(i32::MIN, i32::MAX), sc(i32::MAX, i32::MIN));
    assert!(big > i64::MAX as i128);
}

#[test]
fn top_left_rule_directions() {
    assert!(is_top_left(Sign::Positive, Sign::Zero));
    assert!(!is_top_left(Sign::Negative, Sign::Zero));
    assert!(is_top_left(Sign::Negative, Sign::Positive));
    assert!(!is_top_left(Sign::Positive, Sign::Negative));
    assert!(!is_top_left(Sign::Zero, Sign::Zero));
}

#[test]
fn covers_counts_on_edge_samples_only_when_owned() {
    let (a, b, c) = (sc(0, 0), sc(10, 0), sc(0, 10));
    assert!(covers(sc(2, 2), a, b, c, false, false, false));
    assert!(!covers(sc(0, 5), a, b, c, false, false, false));
    assert!(covers(sc(0, 5), a, b, c, false, true, false));
    assert!(!covers(sc(20, 20), a, b, c, true, true, true));
}

#[test]
fn shared_diagonal_covered_exactly_once() {
    // two right triangles sharing the diagonal of a 10x10 square, opposite windings
    let t1 = [sc(0, 0), sc(10, 0), sc(0, 10)];
    let t2 = [sc(10, 0), sc(10, 10), sc(0, 10)];
    for x in 0..10 {
        for y in 0..10 {
            let n = covered_by(sc(x, y), t1) as u32 + covered_by(sc(x, y), t2) as u32;
            assert_eq!(n, 1, "pixel ({x}, {y})");
        }
    }
}

#[test]
fn bounding_box_is_clipped_to_canvas() {
    let b = bounding_box(sc(-5, 3), sc(7, -2), sc(20, 9), 10, 8);
    assert_eq!((b.x_start, b.x_end, b.y_start, b.y_end), (0, 10, 0, 8));
    let b = bounding_box(sc(1, 2), sc(4, 6), sc(3, 3), 10, 8);
    assert_eq!((b.x_start, b.x_end, b.y_start, b.y_end), (1, 4, 2, 6));
}

#[test]
fn pixel_index_is_row_major() {
    assert_eq!(pixel_index(0, 0, 4, 3), 0);
    assert_eq!(pixel_index(3, 0, 4, 3), 3);
    assert_eq!(pixel_index(1, 2, 4, 3), 9);
}

fn scan_counts(tris: &[[ScreenCoordinate; 3]], width: i32, height: i32) -> Vec<u32> {
    let mut counts = vec![0u32; (width * height) as usize];
    for v in tris {
        let mut scan = CoverageScan::new(
            v[0],
            v[1],
            v[2],
            owns(v[1], v[2]),
            owns(v[2], v[0]),
            owns(v[0], v[1]),
            width,
            height,
        );
        while let Some(p) = scan.next_pixel() {
            assert_eq!(p.index, (p.y * width + p.x) as usize);
            assert_eq!(p.w2, triangle_edge(sc(p.x, p.y), v[0], v[1]));
            counts[p.index] += 1;
        }
    }
    counts
}

#[test]
fn scan_writes_each_square_pixel_once() {
    let t1 = [sc(0, 0), sc(10, 0), sc(0, 10)];
    let t2 = [sc(10, 0), sc(10, 10), sc(0, 10)];
    let counts = scan_counts(&[t1, t2], 10, 10);
    assert!(counts.iter().all(|&n| n == 1));
}

#[test]
fn scan_clips_to_canvas() {
    let big = [sc(-20, -20), sc(40, -20), sc(-20, 40)];
    let counts = scan_counts(&[big], 6, 4);
    assert!(counts.iter().all(|&n| n == 1));
}

#[test]
fn scan_of_offscreen_or_empty_triangle_finds_nothing() {
    let off = [sc(20, 20), sc(30, 20), sc(20, 30)];
    assert!(scan_counts(&[off], 8, 8).iter().all(|&n| n == 0));
    let flat = [sc(1, 1), sc(5, 1), sc(3, 1)];
    assert!(scan_counts(&[flat], 8, 8).iter().all(|&n| n == 0));
    let mut scan = CoverageScan::new(sc(0, 0), sc(4, 0), sc(0, 4), true, true, true, 0, 0);
    assert!(scan.next_pixel().is_none());
}

#[test]
fn scan_visits_column_by_column() {
    let t = [sc(0, 0), sc(4, 0), sc(0, 4)];
    let mut scan = CoverageScan::new(t[0], t[1], t[2], owns(t[1], t[2]), owns(t[2], t[0]), owns(t[0], t[1]), 4, 4);
    let mut order = Vec::new();
    while let Some(p) = scan.next_pixel() {
        order.push((p.x, p.y));
    }
    let mut sorted = order.clone();
    sorted.sort();
    assert_eq!(order, sorted);
    assert_eq!(order[0], (0, 0));
}
