use graphiclity::{Color, DrawCommand, PixelsBackend};

fn px(b: &PixelsBackend, x: u32, y: u32) -> [u8; 4] {
    let (w, _) = b.size();
    let i = ((y * w + x) * 4) as usize;
    let f = b.frame();
    [f[i], f[i + 1], f[i + 2], f[i + 3]]
}

fn lit(b: &PixelsBackend) -> Vec<(u32, u32)> {
    let (w, h) = b.size();
    let mut out = Vec::new();
    for y in 0..h {
        for x in 0..w {
            if px(b, x, y) != [0, 0, 0, 0] {
                out.push((x, y));
            }
        }
    }
    out
}

fn sorted(mut v: Vec<(u32, u32)>) -> Vec<(u32, u32)> {
    v.sort();
    v
}

#[test]
fn new_buffer_is_zeroed_and_sized() {
    let b = PixelsBackend::new(7, 5);
    assert_eq!(b.size(), (7, 5));
    assert_eq!(b.frame().len(), 7 * 5 * 4);
    assert!(b.frame().iter().all(|v| *v == 0));
}

#[test]
fn clear_then_sample_gives_the_color() {
    let mut b = PixelsBackend::new(10, 6);
    let c = Color { r: 1, g: 2, b: 3, a: 4 };
    b.clear(c);
    for y in 0..6 {
        for x in 0..10 {
            assert_eq!(px(&b, x, y), [1, 2, 3, 4]);
        }
    }
}

#[test]
fn set_pixel_writes_four_bytes_in_place() {
    let mut b = PixelsBackend::new(4, 3);
    b.set_pixel(2, 1, Color { r: 9, g: 8, b: 7, a: 6 });
    let i = (1 * 4 + 2) * 4;
    assert_eq!(&b.frame()[i..i + 4], &[9, 8, 7, 6]);
    assert_eq!(lit(&b), vec![(2, 1)]);
}

#[test]
fn set_pixel_off_canvas_changes_nothing() {
    let mut b = PixelsBackend::new(4, 3);
    b.set_pixel(4, 0, Color::white());
    b.set_pixel(0, 3, Color::white());
    b.set_pixel(u32::MAX, u32::MAX, Color::white());
    assert!(lit(&b).is_empty());
}

#[test]
fn rect_fills_its_region() {
    let mut b = PixelsBackend::new(6, 6);
    b.draw_rect(1, 2, 3, 2, Color::red());
    assert_eq!(lit(&b), vec![(1, 2), (2, 2), (3, 2), (1, 3), (2, 3), (3, 3)]);
    assert_eq!(px(&b, 2, 3), [255, 0, 0, 255]);
}

#[test]
fn rect_is_clipped_at_the_edges() {
    let mut b = PixelsBackend::new(4, 4);
    b.draw_rect(2, 3, 100, u32::MAX, Color::green());
    assert_eq!(lit(&b), vec![(2, 3), (3, 3)]);
}

#[test]
fn rect_with_empty_clamped_region_changes_nothing() {
    let mut b = PixelsBackend::new(5, 5);
    b.draw_rect(5, 0, 10, 10, Color::white());
    b.draw_rect(0, 7, 10, 10, Color::white());
    b.draw_rect(1, 1, 0, 3, Color::white());
    b.draw_rect(1, 1, 3, 0, Color::white());
    b.draw_rect(u32::MAX, u32::MAX, u32::MAX, u32::MAX, Color::white());
    assert!(lit(&b).is_empty());
}

#[test]
fn line_follows_bresenham_exactly() {
    let mut b = PixelsBackend::new(10, 10);
    b.draw_line(0, 0, 2, 1, Color::white());
    assert_eq!(sorted(lit(&b)), vec![(0, 0), (1, 1), (2, 1)]);
    let mut r = PixelsBackend::new(10, 10);
    r.draw_line(2, 1, 0, 0, Color::white());
    assert_eq!(sorted(lit(&r)), vec![(0, 0), (1, 0), (2, 1)]);
}

#[test]
fn steep_line_steps_every_row() {
    let mut b = PixelsBackend::new(10, 10);
    b.draw_line(1, 0, 2, 5, Color::white());
    assert_eq!(
        sorted(lit(&b)),
        vec![(1, 0), (1, 1), (1, 2), (2, 3), (2, 4), (2, 5)]
    );
}

#[test]
fn straight_lines_are_symmetric() {
    let ends = [((1, 1), (8, 1)), ((3, 0), (3, 9)), ((0, 0), (7, 7)), ((7, 2), (2, 7))];
    for (a, z) in ends {
        let mut f = PixelsBackend::new(10, 10);
        f.draw_line(a.0, a.1, z.0, z.1, Color::white());
        let mut r = PixelsBackend::new(10, 10);
        r.draw_line(z.0, z.1, a.0, a.1, Color::white());
        assert_eq!(sorted(lit(&f)), sorted(lit(&r)));
    }
}

#[test]
fn line_skips_negative_points_and_clips() {
    let mut b = PixelsBackend::new(4, 4);
    b.draw_line(-2, 1, 6, 1, Color::white());
    assert_eq!(lit(&b), vec![(0, 1), (1, 1), (2, 1), (3, 1)]);
}

#[test]
fn single_point_line() {
    let mut b = PixelsBackend::new(4, 4);
    b.draw_line(2, 2, 2, 2, Color::white());
    assert_eq!(lit(&b), vec![(2, 2)]);
}

#[test]
fn circle_has_its_axis_points_and_no_more() {
    let mut b = PixelsBackend::new(100, 100);
    b.draw_circle(50, 50, 10, Color::white());
    let pts = lit(&b);
    for p in [(60, 50), (50, 60), (40, 50), (50, 40)] {
        assert!(pts.contains(&p), "missing {:?}", p);
    }
    assert!(!pts.contains(&(61, 50)));
    assert!(!pts.contains(&(50, 50)));
    for (x, y) in &pts {
        let dx = *x as i64 - 50;
        let dy = *y as i64 - 50;
        assert!(dx.abs() <= 10 && dy.abs() <= 10);
        assert!(pts.contains(&((100 - *x), *y)));
        assert!(pts.contains(&(*y, *x)));
    }
}

#[test]
fn small_circle_exact_points() {
    let mut b = PixelsBackend::new(10, 10);
    b.draw_circle(5, 5, 1, Color::white());
    assert_eq!(sorted(lit(&b)), vec![(4, 5), (5, 4), (5, 6), (6, 5)]);
    let mut z = PixelsBackend::new(10, 10);
    z.draw_circle(5, 5, 0, Color::white());
    assert_eq!(lit(&z), vec![(5, 5)]);
    let mut n = PixelsBackend::new(10, 10);
    n.draw_circle(5, 5, -3, Color::white());
    assert!(lit(&n).is_empty());
}

#[test]
fn circle_near_corner_skips_negative_points() {
    let mut b = PixelsBackend::new(10, 10);
    b.draw_circle(0, 0, 3, Color::white());
    let pts = lit(&b);
    assert!(pts.contains(&(3, 0)));
    assert!(pts.contains(&(0, 3)));
    assert!(pts.iter().all(|(x, y)| *x <= 3 && *y <= 3));
}

#[test]
fn triangle_is_three_edges() {
    let mut t = PixelsBackend::new(10, 10);
    t.draw_triangle(1, 1, 8, 1, 1, 8, Color::white());
    let mut e = PixelsBackend::new(10, 10);
    e.draw_line(1, 1, 8, 1, Color::white());
    e.draw_line(8, 1, 1, 8, Color::white());
    e.draw_line(1, 8, 1, 1, Color::white());
    assert_eq!(lit(&t), lit(&e));
    assert!(lit(&t).contains(&(4, 5)));
    assert!(!lit(&t).contains(&(3, 3)));
}

#[test]
fn text_draws_the_font_glyph() {
    let mut b = PixelsBackend::new(16, 8);
    b.draw_text(0, 0, "A", Color::white());
    let pts = lit(&b);
    // The glyph of 'A' has rows 0x0C, 0x1E, 0x33, 0x33, 0x3F, 0x33, 0x33, 0x00.
    let rows: [u8; 8] = [0x0C, 0x1E, 0x33, 0x33, 0x3F, 0x33, 0x33, 0x00];
    let mut expected = Vec::new();
    for (row, bits) in rows.iter().enumerate() {
        for col in 0..8u32 {
            if bits & (1u8 << col) != 0 {
                expected.push((col, row as u32));
            }
        }
    }
    assert_eq!(sorted(pts), sorted(expected));
}

#[test]
fn text_advances_eight_columns_per_character() {
    let mut one = PixelsBackend::new(32, 8);
    one.draw_text(8, 0, "A", Color::white());
    let mut two = PixelsBackend::new(32, 8);
    two.draw_text(0, 0, " A", Color::white());
    assert_eq!(lit(&one), lit(&two));
    let mut wide = PixelsBackend::new(32, 8);
    wide.draw_text(0, 0, "\u{e9}A", Color::white());
    assert_eq!(lit(&one), lit(&wide));
}

#[test]
fn text_is_clipped_pixel_by_pixel() {
    let mut b = PixelsBackend::new(4, 4);
    b.draw_text(-2, -3, "AAAAAAAAAAAA", Color::white());
    let mut full = PixelsBackend::new(24, 24);
    full.draw_text(6, 5, "AAAAAAAAAAAA", Color::white());
    let expected: Vec<(u32, u32)> = lit(&full)
        .into_iter()
        .filter(|(x, y)| *x >= 8 && *y >= 8 && *x < 12 && *y < 12)
        .map(|(x, y)| (x - 8, y - 8))
        .collect();
    assert_eq!(sorted(lit(&b)), sorted(expected));
}

#[test]
fn render_paints_commands_in_order() {
    let mut b = PixelsBackend::new(4, 4);
    let cmds = vec![
        DrawCommand::Clear(Color::blue()),
        DrawCommand::Rect { x: 0, y: 0, w: 2, h: 2, color: Color::red() },
        DrawCommand::Pixel { x: 1, y: 1, color: Color::green() },
    ];
    b.render(&cmds);
    assert_eq!(px(&b, 0, 0), [255, 0, 0, 255]);
    assert_eq!(px(&b, 1, 1), [0, 255, 0, 255]);
    assert_eq!(px(&b, 3, 3), [0, 0, 255, 255]);
    let later = vec![DrawCommand::Clear(Color::white())];
    b.render(&later);
    assert_eq!(px(&b, 1, 1), [255, 255, 255, 255]);
}
