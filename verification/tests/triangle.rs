use dognut::fixed::UNIT;
use dognut::position::Pos3;
use dognut::triangle::Triangle;

fn px(x: i64, y: i64) -> Pos3 {
    Pos3::new(x * UNIT, y * UNIT, 0)
}

#[test]
fn bounding_box_of_right_triangle() {
    let t = Triangle::new(px(0, 0), px(4, 0), px(0, 4));
    assert_eq!(t.get_edge(), (0, 4, 0, 4));
}

#[test]
fn bounding_box_rounds_outwards() {
    let t = Triangle::new(
        Pos3::new(UNIT + 1, 2 * UNIT - 1, 0),
        Pos3::new(3 * UNIT + 1, 2 * UNIT, 0),
        Pos3::new(2 * UNIT, 5 * UNIT + 1, 0),
    );
    assert_eq!(t.get_edge(), (1, 4, 1, 6));
}

#[test]
fn bounding_box_stops_at_pixel_zero() {
    let t = Triangle::new(px(-3, -2), px(4, 0), px(0, 4));
    assert_eq!(t.get_edge(), (0, 4, 0, 4));
}

#[test]
fn horizontal_span_of_right_triangle() {
    let t = Triangle::new(px(0, 0), px(4, 0), px(0, 4));
    let span = t.get_horizon_edge(UNIT + UNIT / 2, 0, 4);
    assert_eq!(span, Some((0, 2)));
    let (l, r) = span.unwrap();
    for x in l..=r {
        // the pixel centre (x + 0.5, 1.5) lies on the near side of x + y = 4
        assert!((2 * x as i64 + 1) + 3 <= 8);
    }
}

#[test]
fn horizontal_span_misses_the_triangle() {
    let t = Triangle::new(px(0, 0), px(4, 0), px(0, 4));
    assert_eq!(t.get_horizon_edge(6 * UNIT + UNIT / 2, 0, 4), None);
}

#[test]
fn horizontal_span_respects_the_columns_given() {
    let t = Triangle::new(px(0, 0), px(8, 0), px(0, 8));
    // at y = 0.5 the slanted edge meets the scanline in column 7
    assert_eq!(t.get_horizon_edge(UNIT / 2, 0, 7), Some((0, 7)));
    // with the columns cut at 5 that edge is out of range; the left edge still probes 0..=2
    assert_eq!(t.get_horizon_edge(UNIT / 2, 0, 5), Some((0, 2)));
}

#[test]
fn contains_point_counter_clockwise() {
    let t = Triangle::new(px(0, 0), px(4, 0), px(0, 4));
    assert!(t.in_triangle(&Pos3::new(UNIT, UNIT, 0)));
    assert!(!t.in_triangle(&Pos3::new(3 * UNIT, 3 * UNIT, 0)));
    assert!(!t.in_triangle(&Pos3::new(-UNIT, UNIT, 0)));
    assert!(!t.in_triangle(&Pos3::new(UNIT, -UNIT, 0)));
}

#[test]
fn contains_point_clockwise() {
    let t = Triangle::new(px(0, 0), px(0, 4), px(4, 0));
    assert!(t.in_triangle(&Pos3::new(UNIT, UNIT, 0)));
    assert!(!t.in_triangle(&Pos3::new(3 * UNIT, 3 * UNIT, 0)));
    assert!(!t.in_triangle(&Pos3::new(-UNIT, UNIT, 0)));
    assert!(!t.in_triangle(&Pos3::new(UNIT, -UNIT, 0)));
}

#[test]
fn both_windings_agree_on_a_grid_of_points() {
    let ccw = Triangle::new(px(1, 1), px(6, 2), px(3, 7));
    let cw = Triangle::new(px(1, 1), px(3, 7), px(6, 2));
    for x in -2..18 {
        for y in -2..18 {
            let p = Pos3::new(x * UNIT / 2, y * UNIT / 2, 0);
            assert_eq!(ccw.in_triangle(&p), cw.in_triangle(&p));
        }
    }
}

#[test]
fn point_on_the_line_of_an_edge_but_beyond_it_is_outside() {
    let t = Triangle::new(px(0, 0), px(4, 0), px(0, 4));
    // on the line through the second and third vertex, beyond the second
    assert!(!t.in_triangle(&px(5, -1)));
    assert!(!t.in_triangle(&px(-1, 5)));
    // on the lines of the other two edges
    assert!(!t.in_triangle(&px(6, 0)));
    assert!(!t.in_triangle(&px(0, -2)));
    let other = Triangle::new(px(0, 0), px(0, 4), px(4, 0));
    assert!(!other.in_triangle(&px(5, -1)));
    assert!(!other.in_triangle(&px(6, 0)));
    assert!(!other.in_triangle(&px(0, -2)));
}

#[test]
fn span_holds_no_pixel_outside_the_triangle() {
    let t = Triangle::new(px(0, 3), px(1, 1), px(2, 2));
    assert_eq!(t.get_edge(), (0, 2, 1, 3));
    // on y = 2.5 the triangle reaches from x = 0.25 to x = 1; the centre (2.5, 2.5) lies on
    // the line through the second edge, outside
    assert_eq!(t.get_horizon_edge(2 * UNIT + UNIT / 2, 0, 2), Some((0, 0)));
    assert_eq!(t.get_horizon_edge(UNIT + UNIT / 2, 0, 2), Some((1, 1)));
}

#[test]
fn span_reaches_the_edge_that_leaves_the_columns() {
    // a triangle whose right edge runs along the boundary behind column 7
    let t = Triangle::new(px(8, 0), px(8, 8), px(0, 4));
    assert_eq!(t.get_edge(), (0, 8, 0, 8));
    assert_eq!(t.get_horizon_edge(4 * UNIT + UNIT / 2, 0, 8), Some((1, 7)));
}

#[test]
fn points_on_an_edge_are_inside() {
    let t = Triangle::new(px(0, 0), px(4, 0), px(0, 4));
    assert!(t.in_triangle(&px(2, 0)));
    assert!(t.in_triangle(&px(2, 2)));
    assert!(t.in_triangle(&px(0, 0)));
}

#[test]
fn surface_equation_of_a_tilted_triangle() {
    let t = Triangle::new(Pos3::new(0, 0, 1), Pos3::new(2, 0, 3), Pos3::new(0, 2, 5));
    // edges (2, 0, 2) and (0, 2, 4): normal (0*4 - 2*2, 2*0 - 2*4, 2*2 - 0) = (-4, -8, 4)
    assert_eq!(t.get_surface_equation(), (-4, -8, 4, -4));
}

#[test]
fn depth_matrix_holds_the_plane() {
    let t = Triangle::new(Pos3::new(0, 0, 1), Pos3::new(2, 0, 3), Pos3::new(0, 2, 5));
    let m = t.get_depth_matrix();
    assert_eq!((m.m(), m.n()), (4, 2));
    assert_eq!((m.index(0, 0), m.index(0, 1)), (4, 0));
    assert_eq!((m.index(1, 0), m.index(1, 1)), (8, 0));
    assert_eq!((m.index(2, 0), m.index(2, 1)), (0, 0));
    assert_eq!((m.index(3, 0), m.index(3, 1)), (4, 4));
}

#[test]
fn depth_matrix_reproduces_the_vertex_depths() {
    let t = Triangle::new(Pos3::new(0, 0, 1), Pos3::new(2, 0, 3), Pos3::new(0, 2, 5));
    let m = t.get_depth_matrix();
    assert_eq!(dognut::raster::depth_under(&m, 0, 0), Some(1));
    assert_eq!(dognut::raster::depth_under(&m, 2, 0), Some(3));
    assert_eq!(dognut::raster::depth_under(&m, 0, 2), Some(5));
    assert_eq!(dognut::raster::depth_under(&m, 1, 1), Some(4));
}

#[test]
fn edge_on_triangle_has_no_depth() {
    let t = Triangle::new(Pos3::new(0, 0, 0), Pos3::new(2, 0, 3), Pos3::new(4, 0, 5));
    let m = t.get_depth_matrix();
    assert_eq!(dognut::raster::depth_under(&m, 1, 0), None);
}

#[test]
fn well_formedness_is_checked() {
    assert!(Triangle::new(px(0, 0), px(4, 0), px(0, 4)).is_wf());
    assert!(!Triangle::from_vec(vec![px(0, 0), px(4, 0)]).is_wf());
    assert_eq!(Triangle::from_vec(vec![px(0, 0), px(4, 0)]).len(), 2);
    assert_eq!(Triangle::new(px(0, 0), px(4, 0), px(0, 4)).vertex(1), px(4, 0));
    assert!(!Triangle::new(px(0, 0), px(8193, 0), px(0, 4)).is_wf());
}

#[test]
fn render_object_lists_the_three_vertices() {
    let t = Triangle::new(px(0, 0), px(4, 0), px(0, 4));
    let o = t.to_render_obj();
    assert_eq!(o.vertexes, vec![px(0, 0), px(4, 0), px(0, 4)]);
    assert_eq!(o.indexes, vec![0, 1, 2]);
}

#[test]
fn larger_and_smaller() {
    assert_eq!(dognut::triangle::max(3, -4), 3);
    assert_eq!(dognut::triangle::max(-4, 3), 3);
    assert_eq!(dognut::triangle::min(3, -4), -4);
    assert_eq!(dognut::triangle::min(5, 5), 5);
}
