//! Rendering a scene through a camera.

use crate::camera::Camera;
use crate::determinant::Determinant;
use crate::determinant::Mat;
use crate::determinant::MatrixError;
use crate::fixed::FRAME_LIMIT;
use crate::output_buffer::OutputBuffer;
use crate::output_buffer::view_port;
use crate::raster::blank;
use crate::raster::draw_triangle;
use crate::raster::scene_drawn;
use crate::raster::scene_fits;
use crate::raster::scene_of;
use crate::raster::textured_scene_drawn;
use crate::raster::textured_scene_fits;
use crate::raster::textured_scene_of;
use crate::raster::to_screen;
use crate::raster::to_screen_pixels;
use crate::shader::Shader;
use crate::shader::Texturing;
use crate::triangle::Triangle;
use crate::triangle_resources::TriangleResources;
use crate::vector::V3;
use vstd::prelude::*;

verus! {

impl Camera {
    /// The whole transform of a frame: the model transform, then the view,
    /// then the projection.
    pub open spec fn transform(&self, model: Mat) -> Mat {
        model.product(self.view_matrix()).product(self.projection_matrix())
    }

    /// The transform of a frame can be formed, and every vertex of the scene
    /// can be transformed.
    pub open spec fn frame_fits(&self, scene: Seq<Seq<V3>>, model: Mat) -> bool {
        &&& model.product_fits(self.view_matrix())
        &&& model.product(self.view_matrix()).product_fits(self.projection_matrix())
        &&& scene_fits(scene, self.transform(model))
    }

    /// Renders the scene into a fresh frame of the given size, each fragment
    /// in the grey of its depth.
    ///
    /// Every triangle is transformed by the model, the view and the
    /// projection. A triangle with a vertex outside the unit square is
    /// dropped. The others are drawn in the order of the scene, fragment by
    /// fragment, and a fragment takes its pixel only if it is strictly nearer
    /// than what the pixel holds.
    ///
    /// Fails with `Overflow` exactly when the transform cannot be formed or a
    /// vertex cannot be transformed: there is no frame then.
    pub fn render(
        &self,
        width: u32,
        height: u32,
        object_buffer: &Vec<Triangle>,
        model: &Determinant,
    ) -> (r: Result<OutputBuffer, MatrixError>)
        requires
            self.wf(),
            model.wf(),
            model@.rows == 4,
            model@.cols == 4,
            width <= FRAME_LIMIT,
            height <= FRAME_LIMIT,
            forall|k: int| 0 <= k < object_buffer@.len() ==> (#[trigger] object_buffer@[k])@.len() == 3,
        ensures
            match r {
                Ok(out) => {
                    &&& out.wf()
                    &&& out.for_terminal()
                    &&& self.frame_fits(scene_of(object_buffer@), model@)
                    &&& out@ == scene_drawn(
                        blank(width as nat, height as nat),
                        scene_of(object_buffer@),
                        self.transform(model@),
                        object_buffer@.len(),
                    )
                },
                Err(e) => e == MatrixError::Overflow && !self.frame_fits(
                    scene_of(object_buffer@),
                    model@,
                ),
            },
    {
        assert(width * height * 4 <= 0x1000_0000) by (nonlinear_arith)
            requires
                0 <= width <= 8191,
                0 <= height <= 8191,
        ;
        let mut out = OutputBuffer::new(width, height, true);
        let view = self.to_view_matrix();
        let projection = self.perspective_projection();
        proof {
            view.lemma_view();
            projection.lemma_view();
            self.lemma_wf();
        }
        let mv = match model.mul(&view) {
            Ok(m) => m,
            Err(_) => {
                return Err(MatrixError::Overflow);
            },
        };
        let mvp = match mv.mul(projection) {
            Ok(m) => m,
            Err(_) => {
                return Err(MatrixError::Overflow);
            },
        };
        let ghost scene = scene_of(object_buffer@);
        let mut k: usize = 0;
        while k < object_buffer.len()
            invariant
                k <= object_buffer@.len(),
                scene == scene_of(object_buffer@),
                forall|k: int|
                    0 <= k < object_buffer@.len() ==> (#[trigger] object_buffer@[k])@.len() == 3,
                mvp.wf(),
                mvp@ == self.transform(model@),
                mvp@.rows == 4,
                mvp@.cols == 4,
                out.wf(),
                out.for_terminal(),
                out@.width == width,
                out@.height == height,
                width <= FRAME_LIMIT,
                height <= FRAME_LIMIT,
                forall|a: int, i: int|
                    0 <= a < k && 0 <= i < 3 ==> crate::raster::transform_fits(
                        #[trigger] scene[a][i],
                        mvp@,
                    ),
                out@ == scene_drawn(blank(width as nat, height as nat), scene, mvp@, k as nat),
            decreases object_buffer@.len() - k,
        {
            let tri = &object_buffer[k];
            assert(scene[k as int] == tri@);
            match to_screen(&out, tri, &mvp) {
                Ok(Some((flat, tilt))) => {
                    draw_triangle(&mut out, &flat, &tilt, &Shader::Flat);
                },
                Ok(None) => {},
                Err(_) => {
                    assert(!crate::raster::transform_fits(scene[k as int][0], mvp@)
                        || !crate::raster::transform_fits(scene[k as int][1], mvp@)
                        || !crate::raster::transform_fits(scene[k as int][2], mvp@));
                    return Err(MatrixError::Overflow);
                },
            }
            k += 1;
        }
        Ok(out)
    }
}

impl Camera {
    /// The transform of a frame that ends on a screen of the given size: the
    /// model transform, the view, the projection, and the viewport.
    pub open spec fn screen_transform(&self, model: Mat, width: int, height: int) -> Mat {
        self.transform(model).product(view_port(width, height))
    }

    /// The transform onto the screen can be formed, and every vertex of the
    /// textured scene can be transformed.
    pub open spec fn textured_frame_fits(
        &self,
        scene: Seq<(Seq<V3>, Seq<(int, int)>)>,
        model: Mat,
        width: int,
        height: int,
    ) -> bool {
        &&& model.product_fits(self.view_matrix())
        &&& model.product(self.view_matrix()).product_fits(self.projection_matrix())
        &&& self.transform(model).product_fits(view_port(width, height))
        &&& textured_scene_fits(scene, self.screen_transform(model, width, height))
    }

    /// Renders the textured scene into a fresh frame of the given size, each
    /// fragment in the colour of the texel that lies under it.
    ///
    /// Every triangle is transformed by the model, the view, the projection
    /// and the viewport. A triangle with a vertex outside the frame is
    /// dropped, and the scene goes on with the next. The others are drawn in
    /// the order of the scene, fragment by fragment, and a fragment takes its
    /// pixel only if it is strictly nearer than what the pixel holds.
    ///
    /// Fails with `Overflow` exactly when the transform cannot be formed or a
    /// vertex cannot be transformed: there is no frame then.
    pub fn render_triangle_obejct(
        &self,
        width: u32,
        height: u32,
        triangle_res: &TriangleResources,
        model: &Determinant,
    ) -> (r: Result<OutputBuffer, MatrixError>)
        requires
            self.wf(),
            model.wf(),
            model@.rows == 4,
            model@.cols == 4,
            width <= FRAME_LIMIT,
            height <= FRAME_LIMIT,
            triangle_res.ready(),
        ensures
            match r {
                Ok(out) => {
                    &&& out.wf()
                    &&& !out.for_terminal()
                    &&& self.textured_frame_fits(
                        textured_scene_of(triangle_res.triangles@),
                        model@,
                        width as int,
                        height as int,
                    )
                    &&& out@ == textured_scene_drawn(
                        blank(width as nat, height as nat),
                        textured_scene_of(triangle_res.triangles@),
                        self.screen_transform(model@, width as int, height as int),
                        (triangle_res.image->0)@,
                        triangle_res.triangles@.len(),
                    )
                },
                Err(e) => e == MatrixError::Overflow && !self.textured_frame_fits(
                    textured_scene_of(triangle_res.triangles@),
                    model@,
                    width as int,
                    height as int,
                ),
            },
    {
        assert(width * height * 4 <= 0x1000_0000) by (nonlinear_arith)
            requires
                0 <= width <= 8191,
                0 <= height <= 8191,
        ;
        let mut out = OutputBuffer::new(width, height, false);
        let view = self.to_view_matrix();
        let projection = self.perspective_projection();
        proof {
            view.lemma_view();
            projection.lemma_view();
            self.lemma_wf();
        }
        let mv = match model.mul(&view) {
            Ok(m) => m,
            Err(_) => {
                return Err(MatrixError::Overflow);
            },
        };
        let mvp = match mv.mul(projection) {
            Ok(m) => m,
            Err(_) => {
                return Err(MatrixError::Overflow);
            },
        };
        let view_port = out.to_view_port_matrix();
        let mvp = match mvp.mul(&view_port) {
            Ok(m) => m,
            Err(_) => {
                return Err(MatrixError::Overflow);
            },
        };
        let image = match &triangle_res.image {
            Some(image) => image,
            None => {
                return Ok(out);
            },
        };
        let ghost scene = textured_scene_of(triangle_res.triangles@);
        let mut k: usize = 0;
        while k < triangle_res.triangles.len()
            invariant
                k <= triangle_res.triangles@.len(),
                scene == textured_scene_of(triangle_res.triangles@),
                triangle_res.ready(),
                triangle_res.image == Some(*image),
                mvp.wf(),
                mvp@ == self.screen_transform(model@, width as int, height as int),
                mvp@.rows == 4,
                mvp@.cols == 4,
                out.wf(),
                !out.for_terminal(),
                out@.width == width,
                out@.height == height,
                width <= FRAME_LIMIT,
                height <= FRAME_LIMIT,
                forall|a: int, i: int|
                    0 <= a < k && 0 <= i < 3 ==> crate::raster::transform_fits(
                        #[trigger] scene[a].0[i],
                        mvp@,
                    ),
                out@ == textured_scene_drawn(
                    blank(width as nat, height as nat),
                    scene,
                    mvp@,
                    image@,
                    k as nat,
                ),
            decreases triangle_res.triangles@.len() - k,
        {
            let tri = &triangle_res.triangles[k];
            assert(scene[k as int] == (tri.vertices(), tri.coordinates()));
            assert(tri.in_range());
            match to_screen_pixels(&out, tri, &mvp) {
                Ok(Some((flat, tilt, corrections))) => {
                    let shader = Shader::Textured(
                        Texturing { flat: &flat, corrections, uv: tri.uv, image },
                    );
                    draw_triangle(&mut out, &flat, &tilt, &shader);
                },
                Ok(None) => {},
                Err(_) => {
                    assert(!crate::raster::transform_fits(scene[k as int].0[0], mvp@)
                        || !crate::raster::transform_fits(scene[k as int].0[1], mvp@)
                        || !crate::raster::transform_fits(scene[k as int].0[2], mvp@));
                    return Err(MatrixError::Overflow);
                },
            }
            k += 1;
        }
        Ok(out)
    }
}

} // verus!
