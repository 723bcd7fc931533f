use graphiclity::Config;

#[test]
fn default_config_values() {
    let c = Config::default();
    assert_eq!(c.title, "Untitled");
    assert!(c.resizeable);
    assert_eq!((c.logical_width, c.logical_height), (640, 400));
    assert_eq!((c.window_width, c.window_height), (1280, 800));
    assert_eq!(c.target_fps, Some(60));
}

#[test]
fn builder_without_settings_gives_defaults() {
    let c = Config::builder().build();
    assert_eq!(c.title, "Untitled");
    assert!(c.resizeable);
    assert_eq!((c.logical_width, c.logical_height), (640, 400));
    assert_eq!((c.window_width, c.window_height), (1280, 800));
    assert_eq!(c.target_fps, Some(60));
}

#[test]
fn builder_keeps_given_settings() {
    let c = Config::builder()
        .with_title("My App")
        .set_window_size((1024, 768))
        .set_logical_size((800, 600))
        .set_resizeable(false)
        .with_target_fps(30)
        .build();
    assert_eq!(c.title, "My App");
    assert!(!c.resizeable);
    assert_eq!((c.logical_width, c.logical_height), (800, 600));
    assert_eq!((c.window_width, c.window_height), (1024, 768));
    assert_eq!(c.target_fps, Some(30));
}

#[test]
fn builder_can_ask_for_an_uncapped_rate() {
    let c = Config::builder().with_uncapped_fps().build();
    assert_eq!(c.target_fps, None);
    let d = Config::builder().with_uncapped_fps().with_target_fps(144).build();
    assert_eq!(d.target_fps, Some(144));
}
