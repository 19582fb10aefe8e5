use dognut::fixed::UNIT;
use dognut::output_buffer::Glyph;
use dognut::output_buffer::OutputBuffer;
use dognut::position::Pos3;

fn pixel(out: &OutputBuffer, x: usize, y: usize) -> Vec<u8> {
    let start = (y * out.width() as usize + x) * 4;
    out.display()[start..start + 4].to_vec()
}

#[test]
fn fresh_frame_is_black_and_without_depth() {
    let out = OutputBuffer::new(3, 2, true);
    assert_eq!((out.width(), out.height()), (3, 2));
    assert!(out.tui());
    assert_eq!(out.display(), &vec![0u8; 24]);
    for y in 0..2 {
        for x in 0..3 {
            assert_eq!(out.get_depth(x, y), None);
        }
    }
}

#[test]
fn depth_is_kept_pixel_by_pixel() {
    let mut out = OutputBuffer::new(3, 2, false);
    out.set_depth(2, 1, -7);
    out.set_depth(0, 0, 9);
    assert_eq!(out.get_depth(2, 1), Some(-7));
    assert_eq!(out.get_depth(0, 0), Some(9));
    assert_eq!(out.get_depth(1, 1), None);
    out.set_depth(2, 1, -70);
    assert_eq!(out.get_depth(2, 1), Some(-70));
}

#[test]
fn put_pixel_writes_four_bytes_in_row_major_order() {
    let mut out = OutputBuffer::new(3, 2, false);
    out.put_pixel(1, 1, &[1, 2, 3, 4]);
    let mut expected = vec![0u8; 24];
    expected[16..20].copy_from_slice(&[1, 2, 3, 4]);
    assert_eq!(out.display(), &expected);
    out.put_pixel(0, 0, &[9, 8, 7, 6, 5]);
    assert_eq!(pixel(&out, 0, 0), vec![9, 8, 7, 6]);
    assert_eq!(pixel(&out, 1, 0), vec![0, 0, 0, 0]);
}

#[test]
fn strictly_nearer_fragment_wins() {
    let mut out = OutputBuffer::new(2, 2, false);
    assert!(out.plot(1, 0, 5, &[1, 1, 1, 1]));
    assert!(!out.plot(1, 0, 4, &[2, 2, 2, 2]));
    assert_eq!(pixel(&out, 1, 0), vec![1, 1, 1, 1]);
    assert_eq!(out.get_depth(1, 0), Some(5));
    assert!(out.plot(1, 0, 6, &[3, 3, 3, 3]));
    assert_eq!(pixel(&out, 1, 0), vec![3, 3, 3, 3]);
    assert_eq!(out.get_depth(1, 0), Some(6));
}

#[test]
fn fragment_of_equal_depth_does_not_replace_the_earlier_one() {
    let mut out = OutputBuffer::new(2, 2, false);
    assert!(out.plot(0, 1, 5, &[1, 1, 1, 1]));
    assert!(!out.plot(0, 1, 5, &[2, 2, 2, 2]));
    assert_eq!(pixel(&out, 0, 1), vec![1, 1, 1, 1]);
}

#[test]
fn every_depth_is_in_front_of_an_empty_pixel() {
    let mut out = OutputBuffer::new(1, 1, false);
    assert!(out.plot(0, 0, i64::MIN, &[7, 7, 7, 7]));
    assert_eq!(out.get_depth(0, 0), Some(i64::MIN));
}

#[test]
fn positions_on_the_screen() {
    let out = OutputBuffer::new(8, 4, false);
    assert_eq!(out.pos_to_pixel(0, 0), (4 * UNIT, 2 * UNIT));
    assert_eq!(out.pos_to_pixel(-UNIT, UNIT), (0, 0));
    assert_eq!(out.pos_to_pixel(UNIT, -UNIT), (8 * UNIT, 4 * UNIT));
    assert_eq!(out.pos_to_pixel(UNIT / 2, UNIT / 2), (6 * UNIT, UNIT));
    let odd = OutputBuffer::new(3, 3, false);
    // 3 / 2 * (1 + 1), and 3 / 2 * (1 - 1/65536 - 1) rounded downwards
    assert_eq!(odd.pos_to_pixel(1, 1), (98305, 98302));
}

#[test]
fn positions_with_and_without_depth() {
    let out = OutputBuffer::new(8, 4, false);
    let p = Pos3::new(UNIT / 2, UNIT / 2, -123);
    assert_eq!(out.pos_to_pixel_pos(&p), Pos3::new(6 * UNIT, UNIT, 0));
    assert_eq!(out.pos_to_pixel_pos_with_z(&p), Pos3::new(6 * UNIT, UNIT, -123));
}

#[test]
fn from_the_screen_and_back() {
    let out = OutputBuffer::new(8, 4, false);
    assert_eq!(out.pixel_to_pos(4 * UNIT, 2 * UNIT), Some((0, 0)));
    assert_eq!(out.pixel_to_pos(0, 0), Some((-UNIT, UNIT)));
    let odd = OutputBuffer::new(3, 5, false);
    for x in [-UNIT, -UNIT + 1, -12345, 0, 1, 2, 33333, UNIT - 1, UNIT] {
        for y in [-UNIT, -7, 0, 1, 2, 54321, UNIT] {
            let (px, py) = odd.pos_to_pixel(x, y);
            let (bx, by) = odd.pixel_to_pos(px, py).unwrap();
            assert!(x - 2 <= bx && bx <= x);
            assert!(y <= by && by <= y + 2);
        }
    }
    assert_eq!(OutputBuffer::new(0, 4, false).pixel_to_pos(0, 0), None);
    assert_eq!(OutputBuffer::new(4, 0, false).pixel_to_pos(0, 0), None);
}

#[test]
fn view_port_matrix_does_what_the_mapping_does() {
    let out = OutputBuffer::new(8, 4, false);
    let m = out.to_view_port_matrix();
    let expected: [[i128; 4]; 4] = [
        [8, 0, 0, 0],
        [0, -4, 0, 0],
        [0, 0, 2, 0],
        [8 * UNIT as i128, 4 * UNIT as i128, 0, 2],
    ];
    for i in 0..4 {
        for j in 0..4 {
            assert_eq!(m.index(i, j), expected[i][j]);
        }
    }
    let p = Pos3::new(UNIT / 2, -UNIT / 4, 77);
    let through = Pos3::from_matrix(&p.to_homogeneous().mul(&m).unwrap()).unwrap();
    assert_eq!(through, out.pos_to_pixel_pos_with_z(&p));
}

#[test]
fn glyphs_skip_transparent_pixels() {
    let mut out = OutputBuffer::new(3, 2, true);
    out.put_pixel(2, 0, &[10, 20, 30, 255]);
    out.put_pixel(0, 1, &[1, 2, 3, 0]);
    out.put_pixel(1, 1, &[4, 5, 6, 1]);
    assert_eq!(
        out.glyphs(),
        vec![Glyph { x: 2, y: 0, r: 10, g: 20, b: 30 }, Glyph { x: 1, y: 1, r: 4, g: 5, b: 6 }]
    );
    assert_eq!(OutputBuffer::new(0, 3, true).glyphs(), Vec::new());
    assert_eq!(OutputBuffer::new(3, 0, true).glyphs(), Vec::new());
}
