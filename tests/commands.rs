use graphiclity::{Color, DrawCommand, Graphics};

fn canvas() -> Graphics {
    Graphics::new((320, 240), (640, 480))
}

#[test]
fn graphics_reports_its_sizes() {
    let mut g = canvas();
    assert_eq!(g.logical_size(), (320, 240));
    assert_eq!(g.window_size(), (640, 480));
    g.set_window_size((800, 600));
    assert_eq!(g.window_size(), (800, 600));
    assert_eq!(g.logical_size(), (320, 240));
}

#[test]
fn pixel_with_negative_coordinate_records_nothing() {
    let mut g = canvas();
    g.pixel(-1, 5, Color::red());
    g.pixel(5, -1, Color::red());
    g.pixel(i32::MIN, i32::MIN, Color::red());
    assert!(g.commands().is_empty());
    g.pixel(0, 0, Color::red());
    assert_eq!(g.commands().len(), 1);
    assert!(matches!(g.commands()[0], DrawCommand::Pixel { x: 0, y: 0, .. }));
}

#[test]
fn line_wholly_left_or_above_is_dropped() {
    let mut g = canvas();
    g.line(-5, 3, -1, 9, Color::white());
    g.line(3, -5, 9, -1, Color::white());
    assert!(g.commands().is_empty());
    g.line(-5, 3, 4, 9, Color::white());
    assert!(matches!(
        g.commands()[0],
        DrawCommand::Line { x0: -5, y0: 3, x1: 4, y1: 9, .. }
    ));
}

#[test]
fn rect_with_negative_origin_is_shifted_and_shrunk() {
    let mut g = canvas();
    g.rect(-5, -2, 20, 10, Color::blue());
    assert_eq!(g.commands().len(), 1);
    assert!(matches!(
        g.commands()[0],
        DrawCommand::Rect { x: 0, y: 0, w: 15, h: 8, .. }
    ));
}

#[test]
fn rect_with_nothing_left_is_dropped() {
    let mut g = canvas();
    g.rect(-20, 0, 20, 10, Color::blue());
    g.rect(0, -10, 5, 10, Color::blue());
    g.rect(4, 4, 0, 10, Color::blue());
    g.rect(4, 4, 10, -3, Color::blue());
    g.rect(i32::MIN, 0, i32::MIN, 5, Color::blue());
    assert!(g.commands().is_empty());
}

#[test]
fn circle_triangle_and_text_are_recorded_as_given() {
    let mut g = canvas();
    g.circle(-50, 10, 5, Color::cyan());
    g.triangle(1, 2, 3, 4, -5, -6, Color::green());
    g.text(-3, 7, "hi", Color::black());
    assert_eq!(g.commands().len(), 3);
    assert!(matches!(
        g.commands()[0],
        DrawCommand::Circle { x: -50, y: 10, radius: 5, .. }
    ));
    assert!(matches!(
        g.commands()[1],
        DrawCommand::Triangle { x1: 1, y1: 2, x2: 3, y2: 4, x3: -5, y3: -6, .. }
    ));
    match &g.commands()[2] {
        DrawCommand::Text { x, y, text, color } => {
            assert_eq!((*x, *y), (-3, 7));
            assert_eq!(text, "hi");
            assert_eq!(*color, Color::black());
        }
        _ => panic!("expected a text command"),
    }
}

#[test]
fn commands_keep_recording_order() {
    let mut g = canvas();
    g.clear(Color::white());
    g.pixel(1, 1, Color::red());
    g.clear(Color::black());
    assert!(matches!(g.commands()[0], DrawCommand::Clear(c) if c == Color::white()));
    assert!(matches!(g.commands()[1], DrawCommand::Pixel { .. }));
    assert!(matches!(g.commands()[2], DrawCommand::Clear(c) if c == Color::black()));
}

#[test]
fn begin_frame_empties_the_buffer() {
    let mut g = canvas();
    g.clear(Color::white());
    g.rect(1, 1, 2, 2, Color::red());
    g.begin_frame();
    assert!(g.commands().is_empty());
    g.begin_frame();
    assert!(g.commands().is_empty());
}
