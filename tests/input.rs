use graphiclity::input::{map_to_logical, SUBPIXELS};
use graphiclity::{EdgeTracker, Graphics, IdSet, Input};

#[test]
fn id_set_inserts_removes_and_clears() {
    let mut s = IdSet::new();
    assert!(!s.contains(3));
    s.insert(3);
    s.insert(9);
    s.insert(3);
    assert!(s.contains(3) && s.contains(9));
    s.remove(3);
    assert!(!s.contains(3));
    assert!(s.contains(9));
    s.clear();
    assert!(!s.contains(9));
}

#[test]
fn key_press_shows_once_release_shows_once() {
    let mut input = Input::new();
    // Tick 1: the key goes down.
    input.key_event(7, true);
    assert!(input.key_pressed(7));
    assert!(input.key_down(7));
    assert!(!input.key_released(7));
    input.end_step();
    // Tick 2: an auto-repeat while held.
    input.key_event(7, true);
    assert!(!input.key_pressed(7));
    assert!(input.key_down(7));
    input.end_step();
    // Ticks 3 to 5: no events.
    for _ in 0..3 {
        assert!(!input.key_pressed(7));
        assert!(input.key_down(7));
        input.end_step();
    }
    // Tick 6: the key goes up; on its release tick it still counts as down.
    input.key_event(7, false);
    assert!(input.key_released(7));
    assert!(input.key_down(7));
    assert!(!input.key_pressed(7));
    input.end_step();
    // Tick 7: nothing left.
    assert!(!input.key_released(7));
    assert!(!input.key_down(7));
}

#[test]
fn release_of_a_key_never_down_is_ignored() {
    let mut input = Input::new();
    input.key_event(4, false);
    assert!(!input.key_released(4));
    assert!(!input.key_down(4));
}

#[test]
fn press_and_release_in_one_tick() {
    let mut t = EdgeTracker::new();
    t.event(1, true);
    t.event(1, false);
    assert!(t.is_pressed(1));
    assert!(t.is_released(1));
    assert!(!t.is_held(1));
    t.end_step();
    assert!(!t.is_pressed(1) && !t.is_released(1));
}

#[test]
fn mouse_buttons_track_separately_from_keys() {
    let mut input = Input::new();
    input.mouse_button_event(0, true);
    assert!(input.mouse_pressed(0));
    assert!(input.mouse_down(0));
    assert!(!input.key_down(0));
    input.end_step();
    input.mouse_button_event(0, false);
    assert!(input.mouse_released(0));
    assert!(input.mouse_down(0));
    input.end_step();
    assert!(!input.mouse_down(0));
    assert!(!input.mouse_released(0));
}

#[test]
fn focus_loss_forgets_held_keys_and_cursor() {
    let g = Graphics::new((320, 240), (640, 480));
    let mut input = Input::new();
    input.key_event(2, true);
    input.mouse_button_event(1, true);
    input.cursor_event(Some((10 * SUBPIXELS, 10 * SUBPIXELS)));
    input.focus_lost();
    assert!(!input.key_down(2) && !input.key_pressed(2) && !input.key_released(2));
    assert!(!input.mouse_down(1) && !input.mouse_pressed(1));
    input.update_mouse_mapping(&g);
    assert_eq!(input.mouse_pos(), None);
}

#[test]
fn mouse_maps_bottom_right_corner_exactly() {
    let g = Graphics::new((320, 240), (640, 480));
    let mut input = Input::new();
    input.cursor_event(Some((640 * SUBPIXELS, 480 * SUBPIXELS)));
    input.update_mouse_mapping(&g);
    assert_eq!(input.mouse_pos(), Some((320, 240)));
    assert_eq!(input.mouse_pos_fine(), Some((320 * SUBPIXELS, 240 * SUBPIXELS)));
}

#[test]
fn mouse_mapping_rounds_down() {
    let g = Graphics::new((320, 240), (640, 480));
    let mut input = Input::new();
    input.cursor_event(Some((3 * SUBPIXELS, SUBPIXELS)));
    input.update_mouse_mapping(&g);
    assert_eq!(input.mouse_pos(), Some((1, 0)));
    assert_eq!(input.mouse_pos_fine(), Some((SUBPIXELS * 3 / 2, SUBPIXELS / 2)));
    input.cursor_event(Some((1, 0)));
    input.update_mouse_mapping(&g);
    assert_eq!(input.mouse_pos_fine(), Some((0, 0)));
    assert_eq!(map_to_logical(5, 3, 2), 7);
    assert_eq!(map_to_logical(u32::MAX, u32::MAX, 1), u32::MAX);
}

#[test]
fn mouse_is_absent_without_a_sample() {
    let g = Graphics::new((320, 240), (640, 480));
    let mut input = Input::new();
    input.update_mouse_mapping(&g);
    assert_eq!(input.mouse_pos(), None);
    input.cursor_event(Some((10, 10)));
    input.update_mouse_mapping(&g);
    assert!(input.mouse_pos().is_some());
    input.cursor_event(None);
    input.update_mouse_mapping(&g);
    assert_eq!(input.mouse_pos(), None);
}

#[test]
fn mouse_is_absent_for_a_window_of_no_area() {
    let g = Graphics::new((320, 240), (0, 480));
    let mut input = Input::new();
    input.cursor_event(Some((10, 10)));
    input.update_mouse_mapping(&g);
    assert_eq!(input.mouse_pos(), None);
}

#[test]
fn resize_and_close_last_one_tick() {
    let mut input = Input::new();
    assert_eq!(input.window_resized(), None);
    input.resize_event((800, 600));
    input.close_event();
    assert_eq!(input.window_resized(), Some((800, 600)));
    assert!(input.window_close_requested());
    input.end_step();
    assert_eq!(input.window_resized(), None);
    assert!(!input.window_close_requested());
}
