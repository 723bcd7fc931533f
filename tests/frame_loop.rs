use graphiclity::input::SUBPIXELS;
use graphiclity::{Color, Config, Engine, TickAction};

fn small_config() -> Config {
    Config::builder()
        .set_logical_size((8, 6))
        .set_window_size((16, 12))
        .build()
}

#[test]
fn engine_for_default_config() {
    let e = Engine::new(&Config::default()).expect("fits");
    assert_eq!(e.graphics.logical_size(), (640, 400));
    assert_eq!(e.graphics.window_size(), (1280, 800));
    assert_eq!(e.backend.frame().len(), 640 * 400 * 4);
    assert!(e.scheduler.capped);
}

#[test]
fn engine_refuses_an_unaddressable_canvas() {
    let c = Config::builder()
        .set_logical_size((u32::MAX, u32::MAX))
        .build();
    assert!(Engine::new(&c).is_none());
}

#[test]
fn zero_area_resize_is_ignored() {
    let mut e = Engine::new(&small_config()).expect("fits");
    assert!(!e.window_resized((0, 600)));
    assert!(!e.window_resized((800, 0)));
    assert_eq!(e.graphics.window_size(), (16, 12));
    assert_eq!(e.input.window_resized(), None);
    e.input.key_event(3, true);
    assert!(e.window_resized((800, 600)));
    assert!(e.input.key_pressed(3) && e.input.key_down(3));
    assert_eq!(e.graphics.window_size(), (800, 600));
    assert_eq!(e.input.window_resized(), Some((800, 600)));
    assert_eq!(e.backend.size(), (8, 6));
}

#[test]
fn one_tick_draws_and_resets() {
    let mut e = Engine::new(&small_config()).expect("fits");
    e.input.key_event(5, true);
    e.input.cursor_event(Some((16 * SUBPIXELS, 12 * SUBPIXELS)));
    assert!(matches!(e.scheduler.poll(0), TickAction::Tick { dt_ns: 0 }));
    e.graphics.pixel(3, 3, Color::red());
    e.begin_tick();
    assert!(e.graphics.commands().is_empty());
    assert_eq!(e.input.mouse_pos(), Some((8, 6)));
    assert!(e.input.key_pressed(5));
    e.graphics.clear(Color::white());
    e.graphics.rect(-1, -1, 3, 3, Color::blue());
    e.finish_tick();
    let f = e.backend.frame();
    assert_eq!(&f[0..4], &[0, 0, 255, 255]);
    let i = (1 * 8 + 1) * 4;
    assert_eq!(&f[i..i + 4], &[0, 0, 255, 255]);
    let j = (2 * 8 + 2) * 4;
    assert_eq!(&f[j..j + 4], &[255, 255, 255, 255]);
    assert!(!e.input.key_pressed(5));
    assert!(e.input.key_down(5));
}

#[test]
fn close_request_ends_the_loop() {
    let mut e = Engine::new(&small_config()).expect("fits");
    assert!(matches!(e.scheduler.poll(0), TickAction::Tick { .. }));
    e.close_requested();
    assert!(e.input.window_close_requested());
    assert!(matches!(e.scheduler.poll(1_000_000_000), TickAction::Exit));
}
