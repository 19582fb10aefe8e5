use dognut::camera::Camera;
use dognut::determinant::Determinant;
use dognut::determinant::MatrixError;
use dognut::fixed::UNIT;
use dognut::output_buffer::OutputBuffer;
use dognut::position::Pos3;
use dognut::triangle::Triangle;
use dognut::vector::Vector3;

fn identity() -> Determinant {
    Determinant::from_rows4([1, 0, 0, 0, 0, 1, 0, 0, 0, 0, 1, 0, 0, 0, 0, 1])
}

/// A right-handed camera at the origin that looks down the negative depth
/// axis with a field of view of ninety degrees, near plane -1, far plane -3.
fn camera() -> Camera {
    Camera::new(
        UNIT as u32,
        8,
        8,
        -1,
        -3,
        Pos3::new(0, 0, 0),
        Vector3::from_xyz(0, 0, -1),
        Vector3::from_xyz(0, 1, 0),
        false,
    )
    .unwrap()
}

fn covered(out: &OutputBuffer) -> Vec<(usize, usize)> {
    let mut v = Vec::new();
    for y in 0..out.height() as usize {
        for x in 0..out.width() as usize {
            if out.get_depth(x, y).is_some() {
                v.push((x, y));
            }
        }
    }
    v
}

fn pixel(out: &OutputBuffer, x: usize, y: usize) -> Vec<u8> {
    let start = (y * out.width() as usize + x) * 4;
    out.display()[start..start + 4].to_vec()
}

#[test]
fn one_triangle_in_an_eight_by_eight_frame() {
    let scene = vec![Triangle::new(
        Pos3::new(-1, -1, -2),
        Pos3::new(1, -1, -2),
        Pos3::new(-1, 1, -2),
    )];
    let out = camera().render(8, 8, &scene, &identity()).unwrap();
    // On the screen the triangle is (2, 6), (6, 6), (2, 2): a pixel (x, y) is covered when
    // 2 <= x <= y <= 5.
    let expected = vec![
        (2, 2),
        (2, 3),
        (3, 3),
        (2, 4),
        (3, 4),
        (4, 4),
        (2, 5),
        (3, 5),
        (4, 5),
        (5, 5),
    ];
    assert_eq!(covered(&out), expected);
    for (x, y) in expected {
        // depth -2 lies half-way between the planes in 1/z: normalised depth -1/2
        assert_eq!(out.get_depth(x, y), Some(-UNIT / 2));
        // 255 * (-1/2 + 1) / 2 = 63.75
        assert_eq!(pixel(&out, x, y), vec![63, 63, 63, 63]);
    }
    assert_eq!(pixel(&out, 0, 0), vec![0, 0, 0, 0]);
    assert_eq!(out.display().len(), 8 * 8 * 4);
}

#[test]
fn no_pixel_outside_the_triangle_is_written() {
    let camera = Camera::new(
        UNIT as u32,
        8,
        8,
        -8,
        -24,
        Pos3::new(0, 0, 0),
        Vector3::from_xyz(0, 0, -1),
        Vector3::from_xyz(0, 1, 0),
        false,
    )
    .unwrap();
    // on the screen the triangle is (0, 3), (1, 1), (2, 2)
    let scene = vec![Triangle::new(
        Pos3::new(-16, 4, -16),
        Pos3::new(-12, 12, -16),
        Pos3::new(-8, 8, -16),
    )];
    let out = camera.render(8, 8, &scene, &identity()).unwrap();
    // the centres (1.5, 1.5) and (0.5, 2.5) are the only ones inside
    assert_eq!(covered(&out), vec![(1, 1), (0, 2)]);
}

#[test]
fn triangle_along_the_right_edge_of_the_frame() {
    // on the screen: (8, 0), (8, 8), (0, 4)
    let scene = vec![Triangle::new(Pos3::new(2, 2, -2), Pos3::new(2, -2, -2), Pos3::new(-2, 0, -2))];
    let out = camera().render(8, 8, &scene, &identity()).unwrap();
    let mut expected = Vec::new();
    for y in 0..8i64 {
        for x in 0..8i64 {
            // right of the two slanted edges: |2 y + 1 - 8| <= x + 1/2
            if (2 * y + 1 - 8).abs() * 2 <= 2 * x + 1 {
                expected.push((x as usize, y as usize));
            }
        }
    }
    assert_eq!(covered(&out), expected);
}

#[test]
fn empty_scene_leaves_the_frame_blank() {
    let out = camera().render(4, 3, &Vec::new(), &identity()).unwrap();
    assert_eq!(covered(&out), Vec::new());
    assert!(out.display().iter().all(|b| *b == 0));
    assert_eq!((out.width(), out.height()), (4, 3));
    assert!(out.tui());
}

fn near_triangle() -> Triangle {
    // depth -3/2: normalised depth -2 + 3 / (3/2) = 0
    Triangle::new(Pos3::new(-3, -3, -6), Pos3::new(3, -3, -6), Pos3::new(-3, 3, -6))
}

fn far_triangle() -> Triangle {
    // depth -2, normalised depth -1/2, covers the same pixels as the near one
    Triangle::new(Pos3::new(-4, -4, -8), Pos3::new(4, -4, -8), Pos3::new(-4, 4, -8))
}

fn quarter_scale() -> Determinant {
    // homogeneous scale by 1/4: the vertices above are given in quarters
    Determinant::from_rows4([1, 0, 0, 0, 0, 1, 0, 0, 0, 0, 1, 0, 0, 0, 0, 4])
}

#[test]
fn near_then_far_keeps_the_near_colour() {
    let near_only = camera().render(8, 8, &vec![near_triangle()], &quarter_scale()).unwrap();
    let far_only = camera().render(8, 8, &vec![far_triangle()], &quarter_scale()).unwrap();
    let both = camera()
        .render(8, 8, &vec![near_triangle(), far_triangle()], &quarter_scale())
        .unwrap();
    let near_pixels = covered(&near_only);
    assert_eq!(near_pixels.len(), 10);
    assert_eq!(covered(&far_only), near_pixels);
    for (x, y) in covered(&far_only) {
        assert_eq!(far_only.get_depth(x, y), Some(-UNIT / 2));
    }
    for (x, y) in near_pixels {
        assert_eq!(both.get_depth(x, y), Some(0));
        assert_eq!(pixel(&both, x, y), vec![127, 127, 127, 127]);
        assert_eq!(pixel(&both, x, y), pixel(&near_only, x, y));
    }
}

#[test]
fn drawing_order_does_not_matter_for_distinct_depths() {
    let a = camera()
        .render(8, 8, &vec![near_triangle(), far_triangle()], &quarter_scale())
        .unwrap();
    let b = camera()
        .render(8, 8, &vec![far_triangle(), near_triangle()], &quarter_scale())
        .unwrap();
    assert_eq!(a.display(), b.display());
    assert_eq!(covered(&a), covered(&b));
}

#[test]
fn triangle_with_a_vertex_outside_the_unit_square_is_dropped() {
    let scene = vec![Triangle::new(
        Pos3::new(-1, -1, -2),
        Pos3::new(3, -1, -2),
        Pos3::new(-1, 1, -2),
    )];
    let out = camera().render(8, 8, &scene, &identity()).unwrap();
    assert_eq!(covered(&out), Vec::new());
}

#[test]
fn dropped_triangle_does_not_stop_the_scene() {
    let scene = vec![
        Triangle::new(Pos3::new(-1, -1, -2), Pos3::new(3, -1, -2), Pos3::new(-1, 1, -2)),
        Triangle::new(Pos3::new(-1, -1, -2), Pos3::new(1, -1, -2), Pos3::new(-1, 1, -2)),
    ];
    let out = camera().render(8, 8, &scene, &identity()).unwrap();
    assert_eq!(covered(&out).len(), 10);
}

#[test]
fn triangle_in_the_plane_of_the_eye_is_dropped() {
    let scene = vec![Triangle::new(Pos3::new(-1, -1, 0), Pos3::new(1, -1, 0), Pos3::new(-1, 1, 0))];
    let out = camera().render(8, 8, &scene, &identity()).unwrap();
    assert_eq!(covered(&out), Vec::new());
}

#[test]
fn edge_on_triangle_draws_nothing() {
    let scene = vec![Triangle::new(
        Pos3::new(-1, 0, -2),
        Pos3::new(0, 0, -2),
        Pos3::new(1, 0, -2),
    )];
    let out = camera().render(8, 8, &scene, &identity()).unwrap();
    assert_eq!(covered(&out), Vec::new());
}

#[test]
fn transform_that_overflows_fails() {
    let huge = Determinant::from_rows4([i128::MAX, 0, 0, 0, 0, 1, 0, 0, 0, 0, 1, 0, 0, 0, 0, 1]);
    let scene = vec![Triangle::new(
        Pos3::new(-1, -1, -2),
        Pos3::new(1, -1, -2),
        Pos3::new(-1, 1, -2),
    )];
    assert!(matches!(camera().render(8, 8, &scene, &huge), Err(MatrixError::Overflow)));
}

#[test]
fn frame_without_columns() {
    let scene = vec![Triangle::new(
        Pos3::new(-1, -1, -2),
        Pos3::new(1, -1, -2),
        Pos3::new(-1, 1, -2),
    )];
    let out = camera().render(0, 8, &scene, &identity()).unwrap();
    assert_eq!(out.display().len(), 0);
}
