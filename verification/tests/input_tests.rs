use review_panel::app::{App, Effect};
use review_panel::input::{panel_areas, status_area, within, Input, Key, PanelAreas, Rect16};
use review_panel::log::Row;
use review_panel::marks::MarkSet;

const NOW: &str = "2026-09-09 12:00:00";

fn panel(text: &str) -> App {
    let lines: Vec<String> = text.lines().map(str::to_string).collect();
    App::from_log(
        &lines,
        "2026-09-09 11:50:00",
        "/home/d".to_string(),
        MarkSet::new(),
        MarkSet::new(),
    )
}

fn two_commands() -> App {
    panel(&format!(
        "{NOW} session=s repo=r kind=command item=echo a\n{NOW} session=s repo=r kind=command item=echo b\n"
    ))
}

fn areas() -> PanelAreas {
    panel_areas(0, 0, 80, 24)
}

#[test]
fn the_panel_is_laid_out_as_three_rows_then_the_list() {
    let a = areas();
    assert_eq!(a.close, Rect16 { x: 79, y: 0, width: 1, height: 1 });
    assert_eq!(a.clear_all, Rect16 { x: 72, y: 0, width: 5, height: 1 });
    assert_eq!(a.hint, Rect16 { x: 0, y: 1, width: 80, height: 1 });
    assert_eq!(a.divider, Rect16 { x: 0, y: 2, width: 80, height: 1 });
    assert_eq!(a.list, Rect16 { x: 0, y: 3, width: 80, height: 21 });
    let shifted = panel_areas(10, 5, 40, 10);
    assert_eq!(shifted.close, Rect16 { x: 49, y: 5, width: 1, height: 1 });
    assert_eq!(shifted.list, Rect16 { x: 10, y: 8, width: 40, height: 7 });
}

#[test]
fn within_covers_exactly_the_rectangle() {
    let r = Rect16 { x: 2, y: 3, width: 4, height: 2 };
    assert!(within(r, 2, 3));
    assert!(within(r, 5, 4));
    assert!(!within(r, 6, 4));
    assert!(!within(r, 5, 5));
    assert!(!within(r, 1, 3));
    let edge = Rect16 { x: u16::MAX, y: u16::MAX, width: 1, height: 1 };
    assert!(within(edge, u16::MAX, u16::MAX));
}

#[test]
fn the_status_sits_flush_right_on_the_bottom_row() {
    assert_eq!(status_area(80, 24, 19), Rect16 { x: 61, y: 23, width: 19, height: 1 });
    assert_eq!(status_area(10, 24, 19), Rect16 { x: 0, y: 23, width: 10, height: 1 });
    assert_eq!(status_area(10, 0, 3), Rect16 { x: 7, y: 0, width: 3, height: 1 });
}

#[test]
fn keys_move_mark_and_clear() {
    let mut app = two_commands();
    let a = areas();
    assert_eq!(app.cursor, Some(3));
    app.handle_input(Input::Key(Key::Up), &a);
    assert_eq!(app.cursor, Some(2));
    app.handle_input(Input::Key(Key::K), &a);
    assert_eq!(app.cursor, Some(2));
    app.handle_input(Input::Key(Key::J), &a);
    assert_eq!(app.cursor, Some(3));
    app.handle_input(Input::Key(Key::D), &a);
    let key = match &app.rows[3] {
        Row::CommandItem { key, .. } => key.clone(),
        _ => panic!("expected a command"),
    };
    assert!(app.is_done(&key));
    app.handle_input(Input::Key(Key::Delete), &a);
    assert_eq!(app.rows.len(), 3);
    let effects = app.take_effects();
    assert!(matches!(&effects[..], [Effect::MarkDone(_), Effect::MarkCleared(_)]));
    app.handle_input(Input::Key(Key::Other), &a);
    assert!(app.take_effects().is_empty());
    app.handle_input(Input::Key(Key::ShiftC), &a);
    assert_eq!(app.status_text(), Some("Cleared everything"));
    app.handle_input(Input::Key(Key::Q), &a);
    assert!(app.should_quit);
    let effects = app.take_effects();
    assert!(matches!(&effects[..], [Effect::ClearAll, Effect::Close]));
}

#[test]
fn while_a_command_is_open_only_esc_enter_and_the_buttons_act() {
    let mut app = two_commands();
    let a = areas();
    app.set_visible_height(a.list.height as usize);
    app.handle_input(Input::Key(Key::Enter), &a);
    assert_eq!(app.detail.as_deref(), Some("echo b"));
    app.take_effects();
    app.handle_input(Input::Key(Key::Up), &a);
    app.handle_input(Input::Key(Key::Q), &a);
    app.handle_input(Input::Click { col: 0, row: 5 }, &a);
    app.handle_input(Input::Hover { col: 3, row: 4 }, &a);
    app.handle_input(Input::WheelUp, &a);
    assert_eq!(app.cursor, Some(3));
    assert!(!app.should_quit);
    assert!(app.take_effects().is_empty());
    app.handle_input(Input::Hover { col: 79, row: 0 }, &a);
    assert!(app.close_hovered);
    assert_eq!(app.cursor, Some(3));
    app.handle_input(Input::Key(Key::Esc), &a);
    assert_eq!(app.detail, None);
    assert!(!app.should_quit);
    app.handle_input(Input::Key(Key::Enter), &a);
    app.handle_input(Input::Click { col: 79, row: 0 }, &a);
    assert!(app.should_quit);
    assert_eq!(app.detail.as_deref(), Some("echo b"));
}

#[test]
fn a_panel_too_short_for_its_rows_keeps_every_area_inside() {
    for h in 0..3u16 {
        let a = panel_areas(4, 2, 30, h);
        for r in [a.hint, a.divider, a.list] {
            assert_eq!((r.x, r.width), (4, 30));
            assert!(r.y >= 2 && r.y + r.height <= 2 + h);
        }
        assert_eq!(a.close.x, 33);
    }
}

#[test]
fn clicks_go_to_the_button_or_row_under_them() {
    let mut app = two_commands();
    let a = areas();
    app.set_visible_height(a.list.height as usize);
    assert_eq!(app.scroll, 0);
    // Screen row 3 is list row 0 (blank), screen row 5 is list row 2 (first command).
    app.handle_input(Input::Click { col: 0, row: 5 }, &a);
    let key = match &app.rows[2] {
        Row::CommandItem { key, .. } => key.clone(),
        _ => panic!("expected a command"),
    };
    assert!(app.is_done(&key));
    app.handle_input(Input::Click { col: 20, row: 6 }, &a);
    assert_eq!(app.detail.as_deref(), Some("echo b"));
    app.handle_input(Input::Key(Key::Enter), &a);
    app.handle_input(Input::Click { col: 79, row: 6 }, &a);
    assert_eq!(app.rows.len(), 3);
    app.handle_input(Input::Click { col: 74, row: 0 }, &a);
    assert_eq!(app.status_text(), Some("Cleared everything"));
    app.handle_input(Input::Click { col: 79, row: 0 }, &a);
    assert!(app.should_quit);
}

#[test]
fn hover_lights_the_buttons_and_moves_the_cursor_over_the_list() {
    let mut app = two_commands();
    let a = areas();
    app.set_visible_height(a.list.height as usize);
    assert_eq!(app.scroll, 0);
    app.handle_input(Input::Hover { col: 79, row: 0 }, &a);
    assert!(app.close_hovered);
    assert!(!app.clear_all_hovered);
    assert_eq!(app.cursor, Some(3));
    app.handle_input(Input::Hover { col: 73, row: 0 }, &a);
    assert!(!app.close_hovered);
    assert!(app.clear_all_hovered);
    app.handle_input(Input::Hover { col: 3, row: 4 }, &a);
    assert!(!app.clear_all_hovered);
    assert_eq!(app.cursor, Some(1));
    app.handle_input(Input::Hover { col: 3, row: 1 }, &a);
    assert_eq!(app.cursor, Some(1));
}

#[test]
fn the_wheel_scrolls_three_rows_without_moving_the_cursor() {
    let text: String = (0..20)
        .map(|i| format!("{NOW} session=s repo=r item=/f{i}.txt\n"))
        .collect();
    let mut app = panel(&text);
    let a = areas();
    app.set_visible_height(5);
    let cursor = app.cursor;
    let top = app.scroll;
    app.handle_input(Input::WheelUp, &a);
    assert_eq!(app.scroll, top - 3);
    app.handle_input(Input::WheelDown, &a);
    assert_eq!(app.scroll, top);
    assert_eq!(app.cursor, cursor);
    assert_eq!(app.visible_range(5), (top, top + 5));
    assert_eq!(app.visible_range(100), (top, app.rows.len()));
}
