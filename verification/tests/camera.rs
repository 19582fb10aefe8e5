use dognut::camera::whole_length;
use dognut::camera::Camera;
use dognut::camera::CameraTrait;
use dognut::camera::Direction;
use dognut::determinant::Determinant;
use dognut::fixed::UNIT;
use dognut::position::Pos3;
use dognut::raster::project;
use dognut::vector::Vector3;

fn cells(m: &Determinant) -> Vec<Vec<i128>> {
    (0..m.m()).map(|i| (0..m.n()).map(|j| m.index(i, j)).collect()).collect()
}

fn camera_at(eye: Pos3, left_hand: bool) -> Camera {
    Camera::new(
        UNIT as u32,
        8,
        8,
        -1,
        -3,
        eye,
        Vector3::from_xyz(0, 0, -1),
        Vector3::from_xyz(0, 1, 0),
        left_hand,
    )
    .unwrap()
}

const U: i128 = UNIT as i128;

#[test]
fn right_handed_projection() {
    // tan * rw = 8 * 65536 = 524288 is the common factor of the depth cells
    let m = Camera::perspective_projection_mat_right_hand(UNIT as u32, 8, 4, -1, -3);
    assert_eq!(
        cells(&m),
        vec![
            vec![-(2 * 4) * U * U, 0, 0, 0],
            vec![0, -(2 * 8) * U * U, 0, 0],
            vec![0, 0, -4 * 524288 * U, 2 * 524288],
            vec![0, 0, -6 * 524288 * U, 0],
        ]
    );
}

#[test]
fn left_handed_projection() {
    let m = Camera::perspective_projection_mat_left_hand(UNIT as u32, 8, 4, -1, -3);
    assert_eq!(
        cells(&m),
        vec![
            vec![-(2 * 4) * U * U, 0, 0, 0],
            vec![0, -(2 * 8) * U * U, 0, 0],
            vec![0, 0, -4 * 524288 * U, -2 * 524288],
            vec![0, 0, 6 * 524288 * U, 0],
        ]
    );
}

#[test]
fn projection_with_positive_planes() {
    let m = Camera::perspective_projection_mat_right_hand(UNIT as u32 / 2, 4, 3, 1, 5);
    // tan * rw = 131072
    assert_eq!(
        cells(&m),
        vec![
            vec![-(4 * 3) * U * U, 0, 0, 0],
            vec![0, -(4 * 4) * U * U, 0, 0],
            vec![0, 0, 6 * 131072 * U, -4 * 131072],
            vec![0, 0, -10 * 131072 * U, 0],
        ]
    );
}

#[test]
fn near_and_far_plane_project_to_the_ends_of_the_depth_range() {
    let m = Camera::perspective_projection_mat_right_hand(UNIT as u32, 8, 8, -1, -3);
    assert_eq!(project(&Pos3::new(0, 0, -1), &m).unwrap().0, Some(Pos3::new(0, 0, UNIT)));
    assert_eq!(project(&Pos3::new(0, 0, -3), &m).unwrap().0, Some(Pos3::new(0, 0, -UNIT)));
    // half-way in 1/z
    assert_eq!(project(&Pos3::new(0, 0, -2), &m).unwrap().0, Some(Pos3::new(0, 0, -UNIT / 2)));
}

#[test]
fn point_beyond_the_far_plane_projects_outside_the_depth_range() {
    let m = Camera::perspective_projection_mat_right_hand(UNIT as u32, 8, 8, -1, -3);
    let p = project(&Pos3::new(0, 0, -4), &m).unwrap().0.unwrap();
    // -2 + 3/4
    assert_eq!(p, Pos3::new(0, 0, -UNIT - UNIT / 4));
    assert!(p.z() < -UNIT);
    let far = project(&Pos3::new(0, 0, -1000), &m).unwrap().0.unwrap();
    assert!(far.z() < -UNIT);
}

#[test]
fn field_of_view_of_ninety_degrees_reaches_the_edges() {
    let m = Camera::perspective_projection_mat_right_hand(UNIT as u32, 8, 8, -1, -3);
    assert_eq!(project(&Pos3::new(2, -2, -2), &m).unwrap().0, Some(Pos3::new(UNIT, -UNIT, -UNIT / 2)));
    assert_eq!(project(&Pos3::new(1, 0, -2), &m).unwrap().0, Some(Pos3::new(UNIT / 2, 0, -UNIT / 2)));
    // a screen twice as wide as high shows twice as much across
    let wide = Camera::perspective_projection_mat_right_hand(UNIT as u32, 8, 4, -1, -3);
    assert_eq!(project(&Pos3::new(2, 1, -2), &wide).unwrap().0, Some(Pos3::new(UNIT / 2, UNIT / 2, -UNIT / 2)));
}

#[test]
fn handedness_mirrors_the_depth() {
    let right = Camera::perspective_projection_mat_right_hand(UNIT as u32, 8, 8, -1, -3);
    let left = Camera::perspective_projection_mat_left_hand(UNIT as u32, 8, 8, -1, -3);
    for z in [-1, -2, -3, -5] {
        let r = project(&Pos3::new(1, -1, z), &right).unwrap().0.unwrap();
        let l = project(&Pos3::new(1, -1, -z), &left).unwrap().0.unwrap();
        assert_eq!((l.x(), l.y()), (r.x(), r.y()));
        // the quotients are rounded downwards on both sides
        assert!(l.z() == -r.z() || l.z() == -r.z() - 1);
    }
    assert_eq!(project(&Pos3::new(0, 0, 1), &left).unwrap().0, Some(Pos3::new(0, 0, -UNIT)));
    assert_eq!(project(&Pos3::new(0, 0, 3), &left).unwrap().0, Some(Pos3::new(0, 0, UNIT)));
}

#[test]
fn point_in_the_plane_of_the_eye_has_no_projection() {
    let m = Camera::perspective_projection_mat_right_hand(UNIT as u32, 8, 8, -1, -3);
    assert_eq!(project(&Pos3::new(1, 1, 0), &m).unwrap().0, None);
}

#[test]
fn camera_keeps_the_projection_of_its_frustum() {
    let c = camera_at(Pos3::new(0, 0, 0), false);
    assert_eq!(
        cells(c.perspective_projection()),
        cells(&Camera::perspective_projection_mat_right_hand(UNIT as u32, 8, 8, -1, -3))
    );
    let l = camera_at(Pos3::new(0, 0, 0), true);
    assert_eq!(
        cells(l.perspective_projection()),
        cells(&Camera::perspective_projection_mat_left_hand(UNIT as u32, 8, 8, -1, -3))
    );
    assert_eq!(cells(c.model()), cells(&Determinant::identity_matrix()));
}

#[test]
fn update_projection_takes_the_new_ratio() {
    let mut c = camera_at(Pos3::new(0, 0, 0), false);
    c.update_projection(16, 4);
    assert_eq!(
        cells(c.perspective_projection()),
        cells(&Camera::perspective_projection_mat_right_hand(UNIT as u32, 16, 4, -1, -3))
    );
}

#[test]
fn camera_needs_an_exact_direction_of_view() {
    let make = |forward: Vector3, up: Vector3| {
        Camera::new(UNIT as u32, 8, 8, -1, -3, Pos3::new(0, 0, 0), forward, up, false).is_some()
    };
    assert!(make(Vector3::from_xyz(0, 0, -1), Vector3::from_xyz(0, 1, 0)));
    assert!(make(Vector3::from_xyz(1, 2, 2), Vector3::from_xyz(2, 1, -2)));
    assert!(make(Vector3::from_xyz(0, 0, -5), Vector3::from_xyz(0, 2, 0)));
    // not perpendicular
    assert!(!make(Vector3::from_xyz(0, 1, -1), Vector3::from_xyz(0, 1, 0)));
    // no whole length
    assert!(!make(Vector3::from_xyz(1, 1, 0), Vector3::from_xyz(0, 0, 1)));
    assert!(!make(Vector3::from_xyz(0, 0, 1), Vector3::from_xyz(1, 1, 0)));
    // no direction
    assert!(!make(Vector3::from_xyz(0, 0, 0), Vector3::from_xyz(0, 1, 0)));
    assert!(!make(Vector3::from_xyz(0, 0, 1), Vector3::from_xyz(0, 0, 0)));
    // out of range
    assert!(!make(Vector3::from_xyz(0, 0, (1 << 20) + 1), Vector3::from_xyz(0, 1, 0)));
}

#[test]
fn camera_needs_a_frustum_in_range() {
    let make = |tan: u32, n: i64, z: i64| {
        Camera::new(
            tan,
            8,
            8,
            n,
            z,
            Pos3::new(0, 0, 0),
            Vector3::from_xyz(0, 0, -1),
            Vector3::from_xyz(0, 1, 0),
            false,
        )
        .is_some()
    };
    assert!(make(1 << 24, -(1 << 24), 1 << 24));
    assert!(make(0, 0, 0));
    assert!(!make((1 << 24) + 1, -1, -3));
    assert!(!make(1, -(1 << 24) - 1, -3));
    assert!(!make(1, -1, (1 << 24) + 1));
}

#[test]
fn whole_lengths() {
    assert_eq!(whole_length(&Vector3::from_xyz(1, 2, 2)), Some(3));
    assert_eq!(whole_length(&Vector3::from_xyz(2, 3, 6)), Some(7));
    assert_eq!(whole_length(&Vector3::from_xyz(0, 0, 0)), Some(0));
    assert_eq!(whole_length(&Vector3::from_xyz(1, 1, 0)), None);
    assert_eq!(whole_length(&Vector3::from_xyz(1 << 20, 0, 0)), Some(1 << 20));
}

#[test]
fn view_of_a_camera_along_the_depth_axis() {
    let c = camera_at(Pos3::new(1, 2, 3), false);
    assert_eq!(
        cells(&c.to_view_matrix()),
        vec![vec![1, 0, 0, 0], vec![0, 1, 0, 0], vec![0, 0, 1, 0], vec![-1, -2, -3, 1]]
    );
}

#[test]
fn view_of_a_turned_camera() {
    let c = Camera::new(
        UNIT as u32,
        8,
        8,
        -1,
        -3,
        Pos3::new(0, 0, 0),
        Vector3::from_xyz(1, 2, 2),
        Vector3::from_xyz(2, 1, -2),
        false,
    )
    .unwrap();
    let view = c.to_view_matrix();
    // the columns are forward x up = (-6, 6, -3), three times up, and minus three times forward
    assert_eq!(
        cells(&view),
        vec![vec![-6, 6, -3, 0], vec![6, 3, -6, 0], vec![-3, -6, -6, 0], vec![0, 0, 0, 9]]
    );
    // a step along forward leads straight ahead: three units down the negative depth axis
    assert_eq!(project(&Pos3::new(1, 2, 2), &view).unwrap().0, Some(Pos3::new(0, 0, -3)));
    // a step along up leads upwards
    assert_eq!(project(&Pos3::new(2, 1, -2), &view).unwrap().0, Some(Pos3::new(0, 3, 0)));
}

#[test]
fn view_takes_the_eye_to_the_origin() {
    let c = Camera::new(
        UNIT as u32,
        8,
        8,
        -1,
        -3,
        Pos3::new(10, -20, 30),
        Vector3::from_xyz(1, 2, 2),
        Vector3::from_xyz(2, 1, -2),
        false,
    )
    .unwrap();
    let view = c.to_view_matrix();
    assert_eq!(project(&Pos3::new(10, -20, 30), &view).unwrap().0, Some(Pos3::new(0, 0, 0)));
    assert_eq!(project(&Pos3::new(11, -18, 32), &view).unwrap().0, Some(Pos3::new(0, 0, -3)));
}

#[test]
fn steps_of_the_camera() {
    let start = Pos3::new(10, 20, 30);
    let after = |d: Direction| {
        let mut c = camera_at(start, false);
        assert!(c.can_move(d));
        c.move_view(d);
        c.eye()
    };
    // up x forward = (0, 1, 0) x (0, 0, -1) = (-1, 0, 0)
    assert_eq!(after(Direction::StrafeLeft), Pos3::new(9, 20, 30));
    assert_eq!(after(Direction::StrafeRight), Pos3::new(11, 20, 30));
    assert_eq!(after(Direction::Forward), Pos3::new(10, 20, 29));
    assert_eq!(after(Direction::Back), Pos3::new(10, 20, 31));
    assert_eq!(after(Direction::RotateLeft), start);
    assert_eq!(after(Direction::RotateRight), start);
}

#[test]
fn step_changes_the_eye_only() {
    let mut c = camera_at(Pos3::new(0, 0, 0), false);
    let projection = cells(c.perspective_projection());
    c.move_view(Direction::Forward);
    c.move_view(Direction::StrafeLeft);
    assert_eq!(c.eye(), Pos3::new(-1, 0, -1));
    assert_eq!(cells(c.perspective_projection()), projection);
    assert_eq!(
        cells(&c.to_view_matrix()),
        vec![vec![1, 0, 0, 0], vec![0, 1, 0, 0], vec![0, 0, 1, 0], vec![1, 0, 1, 1]]
    );
}

#[test]
fn eye_and_model_can_be_set() {
    let mut c = camera_at(Pos3::new(0, 0, 0), false);
    c.set_eye(Pos3::new(4, 5, 6));
    assert_eq!(c.eye(), Pos3::new(4, 5, 6));
    assert_eq!(c.to_view_matrix().index(3, 1), -5);
    let m = Determinant::from_rows4([2, 0, 0, 0, 0, 2, 0, 0, 0, 0, 2, 0, 0, 0, 0, 1]);
    c.set_model(m.clone());
    assert_eq!(cells(c.model()), cells(&m));
}

#[test]
fn step_over_the_edge_of_the_numbers_is_told() {
    let c = camera_at(Pos3::new(0, 0, i64::MIN), false);
    assert!(!c.can_move(Direction::Forward));
    assert!(c.can_move(Direction::Back));
    assert!(c.can_move(Direction::RotateLeft));
    let d = camera_at(Pos3::new(i64::MAX, 0, 0), false);
    assert!(!d.can_move(Direction::StrafeRight));
    assert!(d.can_move(Direction::StrafeLeft));
}

#[test]
fn view_position_and_view_projection() {
    let mut c = camera_at(Pos3::new(1, 2, 3), false);
    assert_eq!(c.to_view_position(), [1, 2, 3, 1]);
    let expected = c.perspective_projection().mul(&c.to_view_matrix()).unwrap();
    assert_eq!(cells(&c.to_view_proj().unwrap()), cells(&expected));
    c.update_camera(1, 2, 3, 4, 5, 6, 7);
    assert_eq!(c.to_view_position(), [1, 2, 3, 1]);
}
