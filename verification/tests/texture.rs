use dognut::camera::Camera;
use dognut::determinant::Determinant;
use dognut::fixed::UNIT;
use dognut::output_buffer::OutputBuffer;
use dognut::position::Pos3;
use dognut::shader::correct;
use dognut::shader::interpolate;
use dognut::shader::weights_at;
use dognut::texture::Texture;
use dognut::triangle::Triangle;
use dognut::triangle_resources::TexturedTriangle;
use dognut::triangle_resources::TriangleResources;
use dognut::triangle_resources::Uv;
use dognut::vector::Vector3;
use image::DynamicImage;

/// A texture whose texel `(x, y)` has the colour `(x, y, 0, 255)`.
fn coordinates_image(size: u32) -> Texture {
    let mut bytes = Vec::new();
    for y in 0..size {
        for x in 0..size {
            bytes.extend_from_slice(&[x as u8, y as u8, 0, 255]);
        }
    }
    Texture::new(size, size, bytes).unwrap()
}

fn identity() -> Determinant {
    Determinant::from_rows4([1, 0, 0, 0, 0, 1, 0, 0, 0, 0, 1, 0, 0, 0, 0, 1])
}

fn camera() -> Camera {
    Camera::new(
        UNIT as u32,
        8,
        8,
        -1,
        -3,
        Pos3::new(0, 0, 0),
        Vector3::from_xyz(0, 0, -1),
        Vector3::from_xyz(0, 1, 0),
        false,
    )
    .unwrap()
}

fn pixel(out: &OutputBuffer, x: usize, y: usize) -> Vec<u8> {
    let start = (y * out.width() as usize + x) * 4;
    out.display()[start..start + 4].to_vec()
}

#[test]
fn texture_needs_four_bytes_a_texel() {
    assert!(Texture::new(2, 3, vec![0; 24]).is_some());
    assert!(Texture::new(2, 3, vec![0; 23]).is_none());
    assert!(Texture::new(2, 3, vec![0; 25]).is_none());
    assert!(Texture::new(0, 3, vec![]).is_some());
    assert!(Texture::new(u32::MAX, u32::MAX, vec![0; 4]).is_none());
    let t = Texture::new(2, 3, vec![0; 24]).unwrap();
    assert_eq!((t.width(), t.height()), (2, 3));
    assert!(t.is_wf());
}

#[test]
fn get_pixel_reads_row_after_row() {
    let t = Texture::new(2, 2, (0..16).collect()).unwrap();
    assert_eq!(t.get_pixel(0, 0), [0, 1, 2, 3]);
    assert_eq!(t.get_pixel(1, 0), [4, 5, 6, 7]);
    assert_eq!(t.get_pixel(0, 1), [8, 9, 10, 11]);
    assert_eq!(t.get_pixel(1, 1), [12, 13, 14, 15]);
}

#[test]
fn sample_reads_the_texel() {
    let img = coordinates_image(4);
    assert_eq!(img.sample(0, 0), [0, 0, 0, 255]);
    assert_eq!(img.sample(3, 1), [3, 1, 0, 255]);
    assert_eq!(img.sample(2, 3), [2, 3, 0, 255]);
}

#[test]
fn sample_takes_the_nearest_texel_outside_the_image() {
    let img = coordinates_image(4);
    assert_eq!(img.sample(-5, 2), [0, 2, 0, 255]);
    assert_eq!(img.sample(4, 2), [3, 2, 0, 255]);
    assert_eq!(img.sample(1, 100), [1, 3, 0, 255]);
    assert_eq!(img.sample(-1, -1), [0, 0, 0, 255]);
}

#[test]
fn sample_of_an_image_without_pixels() {
    let img = Texture::new(0, 0, Vec::new()).unwrap();
    assert_eq!(img.sample(0, 0), [0, 0, 0, 0]);
    assert_eq!(Texture::new(3, 0, Vec::new()).unwrap().sample(1, 1), [0, 0, 0, 0]);
}

#[test]
fn texture_of_a_grey_image() {
    let grey = DynamicImage::ImageLuma8(image::GrayImage::from_fn(2, 2, |x, y| {
        image::Luma([(10 * x + y) as u8])
    }));
    let img = Texture::new(grey.width(), grey.height(), grey.to_rgba8().into_raw()).unwrap();
    assert_eq!(img.sample(1, 0), [10, 10, 10, 255]);
    assert_eq!(img.sample(0, 1), [1, 1, 1, 255]);
}

#[test]
fn weights_are_twice_the_areas() {
    let t = Triangle::new(Pos3::new(0, 0, 0), Pos3::new(8, 0, 0), Pos3::new(0, 8, 0));
    // at (2, 1): opposite the first vertex 6*7 - (-1)(-2) = 40, then 16 and 8; 64 in all
    assert_eq!(weights_at(&t, 2, 1), (40, 16, 8));
    assert_eq!(weights_at(&t, 0, 0), (64, 0, 0));
    assert_eq!(weights_at(&t, 8, 0), (0, 64, 0));
    assert_eq!(weights_at(&t, 0, 8), (0, 0, 64));
}

#[test]
fn corrections_are_the_products_of_the_other_divisors() {
    assert_eq!(correct((2, 3, 5)), (15, 10, 6));
    assert_eq!(correct((-2, -3, -5)), (15, 10, 6));
}

#[test]
fn corrections_of_large_divisors_are_halved_together() {
    // the largest, 2^23, is halved four times to get below 2^20: 2^19, 2^18 and 2^17 are left
    assert_eq!(correct((8 << 20, 4 << 20, 2 << 20)), (1 << 35, 1 << 36, 1 << 37));
    // a divisor that is small beside the others has nothing left
    assert_eq!(correct((1 << 30, 1 << 30, 1)), (0, 0, 1 << 38));
}

#[test]
fn divisors_on_both_sides_give_no_correction() {
    assert_eq!(correct((2, -3, 5)), (1, 1, 1));
    assert_eq!(correct((0, 3, 5)), (1, 1, 1));
    assert_eq!(correct((i128::MIN, -3, -5)), (1, 1, 1));
}

#[test]
fn interpolation_rounds_downwards() {
    // weights 1, 1, 2 and values 0, 10, 20: 50 / 4
    assert_eq!(interpolate((1, 1, 2), (1, 1, 1), (0, 10, 20)), 12);
    assert_eq!(interpolate((1, 1, 2), (1, 1, 1), (0, -10, -20)), -13);
    // with corrections 3, 1, 1 the first vertex counts three times: 50 / 6
    assert_eq!(interpolate((1, 1, 2), (3, 1, 1), (0, 10, 20)), 8);
}

#[test]
fn interpolation_without_weight_is_zero() {
    assert_eq!(interpolate((1, -1, 0), (1, 1, 1), (5, 6, 7)), 0);
}

#[test]
fn textured_triangle_parallel_to_the_screen() {
    // on the screen: (2, 6), (6, 6), (2, 2), with the texture corners (0, 0), (4, 0), (0, 4)
    let scene = TriangleResources::new(
        vec![TexturedTriangle::new(
            [Pos3::new(-1, -1, -2), Pos3::new(1, -1, -2), Pos3::new(-1, 1, -2)],
            [Uv::new(0, 0), Uv::new(4, 0), Uv::new(0, 4)],
        )],
        Some(coordinates_image(4)),
    );
    assert!(scene.is_ready());
    let out = camera().render_triangle_obejct(8, 8, &scene, &identity()).unwrap();
    assert!(!out.tui());
    for y in 0..8usize {
        for x in 0..8usize {
            let inside = 2 <= x && x <= y && y <= 5;
            assert_eq!(out.get_depth(x, y).is_some(), inside);
            if inside {
                assert_eq!(out.get_depth(x, y), Some(-UNIT / 2));
                // the centre (x + 1/2, y + 1/2) lies at u = x - 3/2 and v = 11/2 - y
                assert_eq!(pixel(&out, x, y), vec![(x - 2) as u8, (5 - y) as u8, 0, 255]);
            } else {
                assert_eq!(pixel(&out, x, y), vec![0, 0, 0, 0]);
            }
        }
    }
}

#[test]
fn texture_follows_the_triangle_into_the_depth() {
    // on the screen: (0, 0), (8, 0), (0, 8); the second vertex lies three times as far away
    let scene = TriangleResources::new(
        vec![TexturedTriangle::new(
            [Pos3::new(-1, 1, -1), Pos3::new(3, 3, -3), Pos3::new(-1, -1, -1)],
            [Uv::new(0, 0), Uv::new(16, 0), Uv::new(0, 16)],
        )],
        Some(coordinates_image(16)),
    );
    let out = camera().render_triangle_obejct(8, 8, &scene, &identity()).unwrap();
    // At the centre (3.5, 0.5) the weights on the screen are 1/2, 7/16 and 1/16. In space the
    // far vertex counts a third: 3/2, 7/16, 3/16, in all 17/8. So u = 16 * 7/16 / (17/8) = 3.29
    // and v = 16 * 3/16 / (17/8) = 1.41. Without the correction u would be 7.
    assert_eq!(pixel(&out, 3, 0), vec![3, 1, 0, 255]);
    // At the centre (0.5, 0.5): 7/8, 1/16, 1/16 on the screen, 21/8, 1/16, 3/16 in space, in all
    // 23/8: u = 16 * 1/16 / (23/8) = 0.35 and v = 16 * 3/16 / (23/8) = 1.04.
    assert_eq!(pixel(&out, 0, 0), vec![0, 1, 0, 255]);
}

#[test]
fn textured_triangle_outside_the_frame_is_skipped() {
    let scene = TriangleResources::new(
        vec![
            TexturedTriangle::new(
                [Pos3::new(-1, -1, -2), Pos3::new(3, -1, -2), Pos3::new(-1, 1, -2)],
                [Uv::new(0, 0), Uv::new(4, 0), Uv::new(0, 4)],
            ),
            TexturedTriangle::new(
                [Pos3::new(-1, -1, -2), Pos3::new(1, -1, -2), Pos3::new(-1, 1, -2)],
                [Uv::new(0, 0), Uv::new(4, 0), Uv::new(0, 4)],
            ),
        ],
        Some(coordinates_image(4)),
    );
    let out = camera().render_triangle_obejct(8, 8, &scene, &identity()).unwrap();
    let mut covered = 0;
    for y in 0..8usize {
        for x in 0..8usize {
            if out.get_depth(x, y).is_some() {
                covered += 1;
            }
        }
    }
    assert_eq!(covered, 10);
}

#[test]
fn nearer_texture_stays_in_front() {
    let near = TexturedTriangle::new(
        [Pos3::new(-3, -3, -6), Pos3::new(3, -3, -6), Pos3::new(-3, 3, -6)],
        [Uv::new(1, 1), Uv::new(1, 1), Uv::new(1, 1)],
    );
    let far = TexturedTriangle::new(
        [Pos3::new(-4, -4, -8), Pos3::new(4, -4, -8), Pos3::new(-4, 4, -8)],
        [Uv::new(2, 2), Uv::new(2, 2), Uv::new(2, 2)],
    );
    let quarter = Determinant::from_rows4([1, 0, 0, 0, 0, 1, 0, 0, 0, 0, 1, 0, 0, 0, 0, 4]);
    let a = camera()
        .render_triangle_obejct(
            8,
            8,
            &TriangleResources::new(vec![near, far], Some(coordinates_image(4))),
            &quarter,
        )
        .unwrap();
    let b = camera()
        .render_triangle_obejct(
            8,
            8,
            &TriangleResources::new(vec![far, near], Some(coordinates_image(4))),
            &quarter,
        )
        .unwrap();
    assert_eq!(a.display(), b.display());
    assert_eq!(pixel(&a, 3, 4), vec![1, 1, 0, 255]);
    assert_eq!(a.get_depth(3, 4), Some(0));
}

#[test]
fn scene_without_image_is_not_ready() {
    let scene = TriangleResources::new(Vec::new(), None);
    assert!(!scene.is_ready());
    let far_off = TriangleResources::new(
        vec![TexturedTriangle::new(
            [Pos3::new(0, 0, 0), Pos3::new(1, 0, 0), Pos3::new(0, 1, 0)],
            [Uv::new(0, 0), Uv::new(1 << 21, 0), Uv::new(0, 4)],
        )],
        Some(coordinates_image(4)),
    );
    assert!(!far_off.is_ready());
}
