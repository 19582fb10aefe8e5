//! The camera: where it stands and how it looks.
//!
//! Transforms are integer matrices that act on homogeneous rows from the
//! right: a position `(x, y, z, 1)` times the matrix. Such a matrix stands for
//! the same transform when all its entries are multiplied by one number, so
//! no quotient is taken to build one: every entry is the entry of the
//! textbook matrix times one common factor.
//!
//! The direction of view is given by two vectors, forward and up. It is
//! exact: the two are perpendicular and each has a whole length, so that the
//! view transform is a rotation with whole entries.

use crate::determinant::Determinant;
use crate::determinant::identity4;
use crate::determinant::Mat;
use crate::determinant::MatrixError;
use crate::determinant::square4;
use crate::determinant_laws::bounded_by;
use crate::determinant_laws::lemma_product_fits;
use crate::fixed::floor_root;
use crate::fixed::product_within;
use crate::position::Pos3;
use crate::projection::DEPTH_RANGE;
use crate::projection::frustum_in_range;
use crate::projection::projection;
use crate::projection::TAN_LIMIT;
use crate::vector::V3;
use crate::vector::Vector3;
use vstd::prelude::*;

verus! {

/// The largest magnitude of a component of the forward and up vectors.
pub const ORIENT_LIMIT: i64 = 0x10_0000;

/// A step that the camera can be told to take.
#[derive(Debug, Clone, Copy, PartialEq, Eq, Structural)]
pub enum Direction {
    StrafeLeft,
    StrafeRight,
    Forward,
    Back,
    /// Reserved: the camera stays as it is.
    RotateLeft,
    /// Reserved: the camera stays as it is.
    RotateRight,
}

/// The matrix that moves the position `eye` to the origin.
pub open spec fn translation(eye: V3) -> Mat {
    square4(seq![1, 0, 0, 0, 0, 1, 0, 0, 0, 0, 1, 0, -eye.x, -eye.y, -eye.z, 1])
}

/// The rotation that turns `forward` onto the negative depth axis and `up`
/// onto the second axis, for two perpendicular vectors of the whole lengths
/// `lf` and `lu`. Its columns are `forward x up`, `up` and the opposite of
/// `forward`, each stretched to the length `lf * lu`, which is also the
/// fourth cell of the fourth row.
pub open spec fn rotation(forward: V3, up: V3, lf: int, lu: int) -> Mat {
    let s = forward.cross(up);
    square4(
        seq![
            s.x,
            lf * up.x,
            -(lu * forward.x),
            0,
            s.y,
            lf * up.y,
            -(lu * forward.y),
            0,
            s.z,
            lf * up.z,
            -(lu * forward.z),
            0,
            0,
            0,
            0,
            lf * lu,
        ],
    )
}

/// Where a step takes the eye: sideways along the cross product of up and
/// forward or of forward and up, ahead or back along forward, and nowhere
/// for the two reserved directions.
pub open spec fn moved(eye: V3, forward: V3, up: V3, input: Direction) -> V3 {
    match input {
        Direction::StrafeLeft => eye.plus(up.cross(forward)),
        Direction::StrafeRight => eye.plus(forward.cross(up)),
        Direction::Forward => eye.plus(forward),
        Direction::Back => eye.minus(forward),
        Direction::RotateLeft => eye,
        Direction::RotateRight => eye,
    }
}

/// `forward` and `up` are perpendicular, stay within [`ORIENT_LIMIT`], and
/// have the whole lengths `lf` and `lu`, neither of them zero.
pub open spec fn orientation_exact(forward: V3, up: V3, lf: int, lu: int) -> bool {
    &&& forward.within(ORIENT_LIMIT as int)
    &&& up.within(ORIENT_LIMIT as int)
    &&& forward.dot(up) == 0
    &&& lf > 0
    &&& lu > 0
    &&& square(lf) == forward.dot(forward)
    &&& square(lu) == up.dot(up)
}

/// There are whole lengths for which the direction of view is exact.
pub open spec fn orientation_valid(forward: V3, up: V3) -> bool {
    exists|lf: int, lu: int| orientation_exact(forward, up, lf, lu)
}

/// The square of a number.
pub open spec fn square(l: int) -> int {
    l * l
}

/// A camera: a frustum, an eye, a direction of view, a model transform, and
/// the projection that belongs to the frustum.
///
/// The camera looks in exact directions only. Its forward and up vector are
/// perpendicular, and each has a whole length: `(0, 0, -1)` with `(0, 1, 0)`,
/// or `(1, 2, 2)` with `(2, 1, -2)`, but not `(1, 1, 0)`, whose length is the
/// root of two. For such a pair the view transform is a rotation with whole
/// entries, and nothing is rounded on the way from the scene to the screen
/// but the quotient at the end. A direction that is not exact has to be
/// brought to a near one that is before a camera is made of it; there is one
/// as near as wanted, with longer vectors.
pub struct Camera {
    tan_half_fov: u32,
    ratio_w: u32,
    ratio_h: u32,
    n: i64,
    z: i64,
    left_hand: bool,
    eye: Pos3,
    forward: Vector3,
    up: Vector3,
    forward_len: i64,
    up_len: i64,
    model: Determinant,
    perspective_projection: Determinant,
}

impl Camera {
    /// The tangent of half the vertical field of view, in [`UNIT`]s.
    pub closed spec fn tan_half_fov(&self) -> int {
        self.tan_half_fov as int
    }

    /// The aspect ratio, as a width and a height.
    pub closed spec fn ratio(&self) -> (int, int) {
        (self.ratio_w as int, self.ratio_h as int)
    }

    /// The near and the far plane.
    pub closed spec fn planes(&self) -> (int, int) {
        (self.n as int, self.z as int)
    }

    pub closed spec fn is_left_hand(&self) -> bool {
        self.left_hand
    }

    pub closed spec fn eye_position(&self) -> V3 {
        self.eye@
    }

    pub closed spec fn forward_vector(&self) -> V3 {
        self.forward@
    }

    pub closed spec fn up_vector(&self) -> V3 {
        self.up@
    }

    /// The lengths of the forward and of the up vector.
    pub closed spec fn lengths(&self) -> (int, int) {
        (self.forward_len as int, self.up_len as int)
    }

    pub closed spec fn model_matrix(&self) -> Mat {
        self.model@
    }

    pub closed spec fn projection_matrix(&self) -> Mat {
        self.perspective_projection@
    }

    /// The frustum is within range, the direction of view is exact, and the
    /// projection held is the projection of the frustum held.
    pub closed spec fn wf(&self) -> bool {
        &&& frustum_in_range(self.tan_half_fov as int, self.n as int, self.z as int)
        &&& orientation_exact(
            self.forward@,
            self.up@,
            self.forward_len as int,
            self.up_len as int,
        )
        &&& self.model.wf()
        &&& self.model@.rows == 4
        &&& self.model@.cols == 4
        &&& self.perspective_projection.wf()
        &&& self.perspective_projection@ == projection(
            self.left_hand,
            self.tan_half_fov as int,
            self.ratio_w as int,
            self.ratio_h as int,
            self.n as int,
            self.z as int,
        )
    }

    /// What `wf` says, for those who cannot see inside.
    pub proof fn lemma_wf(&self)
        requires
            self.wf(),
        ensures
            frustum_in_range(self.tan_half_fov(), self.planes().0, self.planes().1),
            orientation_exact(
                self.forward_vector(),
                self.up_vector(),
                self.lengths().0,
                self.lengths().1,
            ),
            self.eye_position().fits(),
            self.forward_vector().fits(),
            self.up_vector().fits(),
            self.model_matrix().wf(),
            self.model_matrix().rows == 4,
            self.model_matrix().cols == 4,
            self.projection_matrix() == projection(
                self.is_left_hand(),
                self.tan_half_fov(),
                self.ratio().0,
                self.ratio().1,
                self.planes().0,
                self.planes().1,
            ),
    {
        self.model.lemma_view();
    }
}

impl Camera {
    /// A camera with the given frustum, eye and direction of view, the
    /// identity as its model transform, and the projection of its frustum.
    ///
    /// There is one exactly when the frustum is within range and the
    /// direction of view is exact: `forward` and `up` perpendicular, within
    /// [`ORIENT_LIMIT`], and each of a whole length other than zero. Any other
    /// pair of vectors is refused, a pair that differs only by rounding too.
    pub fn new(
        tan_half_fov: u32,
        ratio_w: u32,
        ratio_h: u32,
        n: i64,
        z: i64,
        pos: Pos3,
        forward: Vector3,
        up: Vector3,
        left_hand: bool,
    ) -> (r: Option<Self>)
        ensures
            r is Some <==> frustum_in_range(tan_half_fov as int, n as int, z as int)
                && orientation_valid(forward@, up@),
            r matches Some(c) ==> {
                &&& c.wf()
                &&& c.tan_half_fov() == tan_half_fov
                &&& c.ratio() == (ratio_w as int, ratio_h as int)
                &&& c.planes() == (n as int, z as int)
                &&& c.is_left_hand() == left_hand
                &&& c.eye_position() == pos@
                &&& c.forward_vector() == forward@
                &&& c.up_vector() == up@
                &&& c.model_matrix() == identity4()
            },
    {
        if tan_half_fov > TAN_LIMIT || n < -DEPTH_RANGE || n > DEPTH_RANGE || z < -DEPTH_RANGE || z
            > DEPTH_RANGE {
            return None;
        }
        if !within(&forward, ORIENT_LIMIT) || !within(&up, ORIENT_LIMIT) {
            return None;
        }
        if forward.dot(&up) != 0 {
            return None;
        }
        let forward_len = match whole_length(&forward) {
            Some(l) => l,
            None => {
                assert forall|lf: int, lu: int| !orientation_exact(forward@, up@, lf, lu) by {
                    assert(square(lf) != forward@.dot(forward@));
                }
                return None;
            },
        };
        let up_len = match whole_length(&up) {
            Some(l) => l,
            None => {
                assert forall|lf: int, lu: int| !orientation_exact(forward@, up@, lf, lu) by {
                    assert(square(lu) != up@.dot(up@));
                }
                return None;
            },
        };
        if forward_len == 0 || up_len == 0 {
            assert forall|lf: int, lu: int| !orientation_exact(forward@, up@, lf, lu) by {
                if orientation_exact(forward@, up@, lf, lu) {
                    assert(lf * lf > 0 && lu * lu > 0) by (nonlinear_arith)
                        requires
                            lf > 0,
                            lu > 0,
                    ;
                }
            }
            return None;
        }
        let persp = if left_hand {
            Camera::perspective_projection_mat_left_hand(tan_half_fov, ratio_w, ratio_h, n, z)
        } else {
            Camera::perspective_projection_mat_right_hand(tan_half_fov, ratio_w, ratio_h, n, z)
        };
        let model = Determinant::identity_matrix();
        proof {
            assert(orientation_exact(forward@, up@, forward_len as int, up_len as int));
        }
        Some(
            Self {
                tan_half_fov,
                ratio_w,
                ratio_h,
                n,
                z,
                left_hand,
                eye: pos,
                forward,
                up,
                forward_len,
                up_len,
                model,
                perspective_projection: persp,
            },
        )
    }

    /// Where the camera stands.
    pub fn eye(&self) -> (r: Pos3)
        ensures
            r@ == self.eye_position(),
    {
        self.eye
    }

    /// Puts the eye at `pos`; everything else stays.
    pub fn set_eye(&mut self, pos: Pos3)
        requires
            old(self).wf(),
        ensures
            final(self).wf(),
            final(self).eye_position() == pos@,
            final(self).tan_half_fov() == old(self).tan_half_fov(),
            final(self).ratio() == old(self).ratio(),
            final(self).planes() == old(self).planes(),
            final(self).is_left_hand() == old(self).is_left_hand(),
            final(self).forward_vector() == old(self).forward_vector(),
            final(self).up_vector() == old(self).up_vector(),
            final(self).lengths() == old(self).lengths(),
            final(self).model_matrix() == old(self).model_matrix(),
            final(self).projection_matrix() == old(self).projection_matrix(),
    {
        self.eye = pos;
    }

    /// Gives the camera another model transform, a four-by-four matrix;
    /// everything else stays.
    pub fn set_model(&mut self, model: Determinant)
        requires
            old(self).wf(),
            model.wf(),
            model@.rows == 4,
            model@.cols == 4,
        ensures
            final(self).wf(),
            final(self).model_matrix() == model@,
            final(self).eye_position() == old(self).eye_position(),
            final(self).tan_half_fov() == old(self).tan_half_fov(),
            final(self).ratio() == old(self).ratio(),
            final(self).planes() == old(self).planes(),
            final(self).is_left_hand() == old(self).is_left_hand(),
            final(self).forward_vector() == old(self).forward_vector(),
            final(self).up_vector() == old(self).up_vector(),
            final(self).lengths() == old(self).lengths(),
            final(self).projection_matrix() == old(self).projection_matrix(),
    {
        self.model = model;
    }

    /// The model transform.
    pub fn model(&self) -> (r: &Determinant)
        ensures
            r@ == self.model_matrix(),
            self.wf() ==> r.wf(),
    {
        &self.model
    }

    /// The projection that belongs to the frustum.
    pub fn perspective_projection(&self) -> (r: &Determinant)
        ensures
            r@ == self.projection_matrix(),
            self.wf() ==> r.wf(),
    {
        &self.perspective_projection
    }

    /// Whether the step leaves the eye at a position with `i64` coordinates:
    /// what [`Camera::move_view`] asks for.
    pub fn can_move(&self, input: Direction) -> (r: bool)
        requires
            self.wf(),
        ensures
            r == moved(self.eye_position(), self.forward_vector(), self.up_vector(), input).fits(),
    {
        proof {
            lemma_orientation_cross(self.forward@, self.up@);
        }
        let step = match input {
            Direction::StrafeLeft => self.up.cross(&self.forward),
            Direction::StrafeRight => self.forward.cross(&self.up),
            Direction::Forward => self.forward,
            Direction::Back => Vector3::from_xyz(-self.forward.x, -self.forward.y, -self.forward.z),
            Direction::RotateLeft => Vector3::from_xyz(0, 0, 0),
            Direction::RotateRight => Vector3::from_xyz(0, 0, 0),
        };
        self.eye.x.checked_add(step.x).is_some() && self.eye.y.checked_add(step.y).is_some()
            && self.eye.z.checked_add(step.z).is_some()
    }

    /// Takes one step: the eye moves, everything else stays.
    pub fn move_view(&mut self, input: Direction)
        requires
            old(self).wf(),
            moved(
                old(self).eye_position(),
                old(self).forward_vector(),
                old(self).up_vector(),
                input,
            ).fits(),
        ensures
            final(self).wf(),
            final(self).eye_position() == moved(
                old(self).eye_position(),
                old(self).forward_vector(),
                old(self).up_vector(),
                input,
            ),
            final(self).tan_half_fov() == old(self).tan_half_fov(),
            final(self).ratio() == old(self).ratio(),
            final(self).planes() == old(self).planes(),
            final(self).is_left_hand() == old(self).is_left_hand(),
            final(self).forward_vector() == old(self).forward_vector(),
            final(self).up_vector() == old(self).up_vector(),
            final(self).lengths() == old(self).lengths(),
            final(self).model_matrix() == old(self).model_matrix(),
            final(self).projection_matrix() == old(self).projection_matrix(),
    {
        proof {
            lemma_orientation_cross(self.forward@, self.up@);
        }
        match input {
            Direction::StrafeLeft => {
                let vec = self.up.cross(&self.forward);
                self.eye = self.eye.add(&vec);
            },
            Direction::StrafeRight => {
                let vec = self.forward.cross(&self.up);
                self.eye = self.eye.add(&vec);
            },
            Direction::Forward => {
                self.eye = self.eye.add(&self.forward);
            },
            Direction::Back => {
                self.eye = Pos3::from_xyz(
                    self.eye.x - self.forward.x,
                    self.eye.y - self.forward.y,
                    self.eye.z - self.forward.z,
                );
            },
            Direction::RotateLeft => {},
            Direction::RotateRight => {},
        };
    }

    /// The view transform: the eye moved to the origin, then the direction
    /// of view turned onto the negative depth axis.
    pub fn to_view_matrix(&self) -> (r: Determinant)
        requires
            self.wf(),
        ensures
            r.wf(),
            r@ == translation(self.eye_position()).product(
                rotation(
                    self.forward_vector(),
                    self.up_vector(),
                    self.lengths().0,
                    self.lengths().1,
                ),
            ),
    {
        let t = Determinant::from_rows4(
            [
                1,
                0,
                0,
                0,
                0,
                1,
                0,
                0,
                0,
                0,
                1,
                0,
                -(self.eye.x as i128),
                -(self.eye.y as i128),
                -(self.eye.z as i128),
                1,
            ],
        );
        proof {
            lemma_orientation_cross(self.forward@, self.up@);
        }
        let s = self.forward.cross(&self.up);
        let lf = self.forward_len as i128;
        let lu = self.up_len as i128;
        proof {
            lemma_length_bound(self.forward@, self.forward_len as int);
            lemma_length_bound(self.up@, self.up_len as int);
        }
        let ux = product_within(lf, self.up.x as i128, Ghost(0x20_0000), Ghost(0x10_0000));
        let uy = product_within(lf, self.up.y as i128, Ghost(0x20_0000), Ghost(0x10_0000));
        let uz = product_within(lf, self.up.z as i128, Ghost(0x20_0000), Ghost(0x10_0000));
        let fx = product_within(lu, self.forward.x as i128, Ghost(0x20_0000), Ghost(0x10_0000));
        let fy = product_within(lu, self.forward.y as i128, Ghost(0x20_0000), Ghost(0x10_0000));
        let fz = product_within(lu, self.forward.z as i128, Ghost(0x20_0000), Ghost(0x10_0000));
        let ll = product_within(lf, lu, Ghost(0x20_0000), Ghost(0x20_0000));
        let r = Determinant::from_rows4(
            [
                s.x as i128,
                ux,
                -fx,
                0,
                s.y as i128,
                uy,
                -fy,
                0,
                s.z as i128,
                uz,
                -fz,
                0,
                0,
                0,
                0,
                ll,
            ],
        );
        proof {
            let tm = translation(self.eye@);
            let rm = rotation(
                self.forward@,
                self.up@,
                self.forward_len as int,
                self.up_len as int,
            );
            crate::determinant::lemma_mat_equal(t@, tm);
            crate::determinant::lemma_mat_equal(r@, rm);
            let te = seq![
                1,
                0,
                0,
                0,
                0,
                1,
                0,
                0,
                0,
                0,
                1,
                0,
                -self.eye@.x,
                -self.eye@.y,
                -self.eye@.z,
                1,
            ];
            lemma_square4_bounded(te, 0x8000_0000_0000_0000);
            let sv = self.forward@.cross(self.up@);
            let re = seq![
                sv.x,
                lf * self.up@.x,
                -(lu * self.forward@.x),
                0,
                sv.y,
                lf * self.up@.y,
                -(lu * self.forward@.y),
                0,
                sv.z,
                lf * self.up@.z,
                -(lu * self.forward@.z),
                0,
                0,
                0,
                0,
                lf * lu,
            ];
            lemma_square4_bounded(re, 0x400_0000_0000);
            lemma_product_fits(tm, rm, 0x8000_0000_0000_0000, 0x400_0000_0000);
        }
        t.mul(&r).unwrap()
    }

    /// The view transform of the camera.
    pub open spec fn view_matrix(&self) -> Mat {
        translation(self.eye_position()).product(
            rotation(self.forward_vector(), self.up_vector(), self.lengths().0, self.lengths().1),
        )
    }
}

/// What a presentation path asks of a camera, whatever its projection
/// strategy.
pub trait CameraTrait {
    /// The camera can be used.
    spec fn ready(&self) -> bool;

    /// Moves and turns the camera by what a controller measured.
    fn update_camera(
        &mut self,
        forward_dt: i64,
        right_dt: i64,
        scroll_dt: i64,
        up_dt: i64,
        hori: i64,
        ver: i64,
        sensi: i64,
    )
        requires
            old(self).ready(),
        ensures
            final(self).ready(),
    ;

    /// The eye as a homogeneous row.
    fn to_view_position(&self) -> (r: [i64; 4])
        requires
            self.ready(),
    ;

    /// The projection times the view transform, where that can be formed.
    fn to_view_proj(&self) -> (r: Result<Determinant, MatrixError>)
        requires
            self.ready(),
    ;

    /// Takes a new aspect ratio from the size of the screen.
    fn update_projection(&mut self, width: u32, height: u32)
        requires
            old(self).ready(),
        ensures
            final(self).ready(),
    ;
}

impl CameraTrait for Camera {
    open spec fn ready(&self) -> bool {
        self.wf()
    }

    /// Reserved: the camera stays as it is.
    fn update_camera(
        &mut self,
        forward_dt: i64,
        right_dt: i64,
        scroll_dt: i64,
        up_dt: i64,
        hori: i64,
        ver: i64,
        sensi: i64,
    )
        ensures
            *final(self) == *old(self),
    {
    }

    fn to_view_position(&self) -> (r: [i64; 4])
        ensures
            r@ == seq![self.eye_position().x as i64, self.eye_position().y as i64, self.eye_position().z as i64, 1i64],
    {
        let r = [self.eye.x, self.eye.y, self.eye.z, 1];
        assert(r@ =~= seq![self.eye@.x as i64, self.eye@.y as i64, self.eye@.z as i64, 1i64]);
        r
    }

    /// Fails with `Overflow` exactly when the product cannot be formed.
    fn to_view_proj(&self) -> (r: Result<Determinant, MatrixError>)
        ensures
            match r {
                Ok(m) => {
                    &&& m.wf()
                    &&& self.projection_matrix().product_fits(self.view_matrix())
                    &&& m@ == self.projection_matrix().product(self.view_matrix())
                },
                Err(e) => e == MatrixError::Overflow && !self.projection_matrix().product_fits(
                    self.view_matrix(),
                ),
            },
    {
        let view = self.to_view_matrix();
        proof {
            view.lemma_view();
            self.perspective_projection.lemma_view();
        }
        match self.perspective_projection.mul(&view) {
            Ok(m) => Ok(m),
            Err(_) => Err(MatrixError::Overflow),
        }
    }

    fn update_projection(&mut self, width: u32, height: u32)
        ensures
            final(self).ratio() == (width as int, height as int),
            final(self).projection_matrix() == projection(
                old(self).is_left_hand(),
                old(self).tan_half_fov(),
                width as int,
                height as int,
                old(self).planes().0,
                old(self).planes().1,
            ),
            final(self).tan_half_fov() == old(self).tan_half_fov(),
            final(self).planes() == old(self).planes(),
            final(self).is_left_hand() == old(self).is_left_hand(),
            final(self).eye_position() == old(self).eye_position(),
            final(self).forward_vector() == old(self).forward_vector(),
            final(self).up_vector() == old(self).up_vector(),
            final(self).model_matrix() == old(self).model_matrix(),
    {
        self.ratio_w = width;
        self.ratio_h = height;
        self.perspective_projection = if self.left_hand {
            Camera::perspective_projection_mat_left_hand(
                self.tan_half_fov,
                self.ratio_w,
                self.ratio_h,
                self.n,
                self.z,
            )
        } else {
            Camera::perspective_projection_mat_right_hand(
                self.tan_half_fov,
                self.ratio_w,
                self.ratio_h,
                self.n,
                self.z,
            )
        };
    }
}

/// The length of `v`, if it is a whole number.
pub fn whole_length(v: &Vector3) -> (r: Option<i64>)
    requires
        v@.within(ORIENT_LIMIT as int),
    ensures
        r matches Some(l) ==> 0 <= l && l * l == v@.dot(v@),
        r is None ==> forall|l: int| #[trigger] square(l) != v@.dot(v@),
{
    let q = v.dot(v);
    assert(0 <= q <= 0x300_0000_0000) by (nonlinear_arith)
        requires
            q == v.x * v.x + v.y * v.y + v.z * v.z,
            -0x10_0000 <= v.x <= 0x10_0000,
            -0x10_0000 <= v.y <= 0x10_0000,
            -0x10_0000 <= v.z <= 0x10_0000,
    ;
    whole_root(q)
}

/// The whole number whose square is `q`, if there is one.
fn whole_root(q: i128) -> (r: Option<i64>)
    requires
        0 <= q <= 0x400_0000_0000,
    ensures
        r matches Some(l) ==> 0 <= l <= 0x20_0000 && l * l == q,
        r is None ==> forall|l: int| #[trigger] square(l) != q,
{
    let lo = floor_root(q);
    if lo > 0x20_0000 {
        assert(lo * lo > 0x400_0000_0000) by (nonlinear_arith)
            requires
                lo > 0x20_0000,
        ;
    }
    assert(0 <= lo * lo <= 0x400_0000_0000) by (nonlinear_arith)
        requires
            0 <= lo <= 0x20_0000,
    ;
    if lo * lo == q {
        Some(lo as i64)
    } else {
        proof {
            assert forall|l: int| #[trigger] square(l) != q by {
                lemma_between_squares(l, lo as int, q as int);
            }
        }
        None
    }
}

proof fn lemma_between_squares(l: int, lo: int, q: int)
    requires
        0 <= lo,
        lo * lo < q < (lo + 1) * (lo + 1),
    ensures
        l * l != q,
{
    if -lo <= l <= lo {
        assert(l * l <= lo * lo) by (nonlinear_arith)
            requires
                -lo <= l <= lo,
        ;
    } else {
        assert(l * l >= (lo + 1) * (lo + 1)) by (nonlinear_arith)
            requires
                l >= lo + 1 || l <= -(lo + 1),
                0 <= lo,
        ;
    }
}

/// Whether `v` stays within `limit`.
fn within(v: &Vector3, limit: i64) -> (r: bool)
    requires
        limit >= 0,
    ensures
        r == v@.within(limit as int),
{
    -limit <= v.x && v.x <= limit && -limit <= v.y && v.y <= limit && -limit <= v.z && v.z
        <= limit
}

proof fn lemma_square4_bounded(e: Seq<int>, limit: int)
    requires
        e.len() == 16,
        forall|k: int| 0 <= k < 16 ==> -limit <= #[trigger] e[k] <= limit,
    ensures
        bounded_by(square4(e), limit),
        square4(e).wf(),
{
    assert forall|i: int, j: int| 0 <= i < 4 && 0 <= j < 4 implies -limit
        <= #[trigger] square4(e).cells[i][j] <= limit by {
        assert(square4(e).cells[i][j] == e[4 * i + j]);
    }
}

proof fn lemma_orientation_cross(forward: V3, up: V3)
    requires
        forward.within(ORIENT_LIMIT as int),
        up.within(ORIENT_LIMIT as int),
    ensures
        forward.cross(up).within(0x200_0000_0000),
        up.cross(forward).within(0x200_0000_0000),
        forward.cross(up).fits(),
        up.cross(forward).fits(),
{
    lemma_small_difference(forward.y, up.z, forward.z, up.y);
    lemma_small_difference(forward.z, up.x, forward.x, up.z);
    lemma_small_difference(forward.x, up.y, forward.y, up.x);
    lemma_small_difference(up.y, forward.z, up.z, forward.y);
    lemma_small_difference(up.z, forward.x, up.x, forward.z);
    lemma_small_difference(up.x, forward.y, up.y, forward.x);
}

proof fn lemma_small_difference(a: int, b: int, c: int, d: int)
    requires
        -0x10_0000 <= a <= 0x10_0000,
        -0x10_0000 <= b <= 0x10_0000,
        -0x10_0000 <= c <= 0x10_0000,
        -0x10_0000 <= d <= 0x10_0000,
    ensures
        -0x200_0000_0000 <= a * b - c * d <= 0x200_0000_0000,
{
    assert(-0x100_0000_0000 <= a * b <= 0x100_0000_0000) by (nonlinear_arith)
        requires
            -0x10_0000 <= a <= 0x10_0000,
            -0x10_0000 <= b <= 0x10_0000,
    ;
    assert(-0x100_0000_0000 <= c * d <= 0x100_0000_0000) by (nonlinear_arith)
        requires
            -0x10_0000 <= c <= 0x10_0000,
            -0x10_0000 <= d <= 0x10_0000,
    ;
}

/// A vector within [`ORIENT_LIMIT`] is no longer than twice the limit.
proof fn lemma_length_bound(v: V3, l: int)
    requires
        v.within(ORIENT_LIMIT as int),
        0 <= l,
        l * l == v.dot(v),
    ensures
        l <= 0x20_0000,
{
    assert(v.dot(v) <= 0x300_0000_0000) by (nonlinear_arith)
        requires
            v.dot(v) == v.x * v.x + v.y * v.y + v.z * v.z,
            -0x10_0000 <= v.x <= 0x10_0000,
            -0x10_0000 <= v.y <= 0x10_0000,
            -0x10_0000 <= v.z <= 0x10_0000,
    ;
    if l > 0x20_0000 {
        assert(l * l > 0x300_0000_0000) by (nonlinear_arith)
            requires
                l > 0x20_0000,
        ;
    }
}

} // verus!
