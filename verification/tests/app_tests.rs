use review_panel::app::{App, Effect, CHECKBOX_END_COL};
use review_panel::log::{Row, TailRead};
use review_panel::marks::MarkSet;

const NOW: &str = "2026-09-09 12:00:00";
/// Ten minutes before `NOW`: the start-up window.
const CUTOFF: &str = "2026-09-09 11:50:00";

fn fixture_with(log_contents: &str, cleared: MarkSet) -> App {
    let lines: Vec<String> = log_contents.lines().map(str::to_string).collect();
    App::from_log(&lines, CUTOFF, "/home/d".to_string(), MarkSet::new(), cleared)
}

fn fixture(log_contents: &str) -> App {
    fixture_with(log_contents, MarkSet::new())
}

fn now_line(repo: &str, item: &str) -> String {
    format!("{NOW} session=s repo={repo} cwd=/home/d item={item}\n")
}

fn now_command_line(repo: &str, item: &str) -> String {
    format!("{NOW} session=s repo={repo} cwd=/home/d kind=command item={item}\n")
}

fn two_line_group(repo: &str, item_a: &str, item_b: &str) -> String {
    format!(
        "{NOW} session=s repo={repo} cwd=/home/d item={item_a}\n{NOW} session=s repo={repo} cwd=/home/d item={item_b}\n"
    )
}

#[test]
fn backfill_jumps_cursor_to_the_last_item() {
    let app = fixture(&two_line_group("r", "a.txt", "b.txt"));
    assert_eq!(app.rows.len(), 4);
    let cursor = app.cursor.unwrap();
    assert!(matches!(&app.rows[cursor], Row::FileItem { label, .. } if label == "b.txt"));
}

#[test]
fn move_cursor_only_lands_on_items_and_clamps_at_the_ends() {
    let mut app = fixture(&two_line_group("r", "a.txt", "b.txt"));
    app.move_cursor(-100);
    assert!(
        matches!(&app.rows[app.cursor.unwrap()], Row::FileItem { label, .. } if label == "a.txt")
    );
    app.move_cursor(100);
    assert!(
        matches!(&app.rows[app.cursor.unwrap()], Row::FileItem { label, .. } if label == "b.txt")
    );
}

#[test]
fn toggle_done_marks_a_command_and_persists_it() {
    let mut app = fixture(&now_command_line("r", "echo hi"));
    app.toggle_done_cursor();
    let Row::CommandItem { key, .. } = &app.rows[app.cursor.unwrap()] else {
        panic!("expected CommandItem")
    };
    let key = key.clone();
    assert!(app.is_done(&key));
    let effects = app.take_effects();
    assert!(effects
        .iter()
        .any(|e| matches!(e, Effect::MarkDone(k) if *k == key)));
}

#[test]
fn clicking_the_checkbox_column_toggles_done_but_leaves_the_row_in_place() {
    let mut app = fixture(&now_command_line("r", "echo hi"));
    let idx = app.cursor.unwrap();
    app.click_row(idx, 0, 80);
    let Row::CommandItem { key, .. } = &app.rows[idx] else {
        panic!("expected CommandItem")
    };
    assert!(app.is_done(key));
    assert_eq!(app.rows.len(), 3);
}

#[test]
fn clicking_past_the_checkbox_copies_instead_of_toggling_done() {
    let mut app = fixture(&now_command_line("r", "echo hi"));
    let idx = app.cursor.unwrap();
    app.click_row(idx, CHECKBOX_END_COL, 80);
    let Row::CommandItem { key, .. } = &app.rows[idx] else {
        panic!("expected CommandItem")
    };
    assert!(
        !app.is_done(key),
        "clicking past the checkbox should copy, not toggle done"
    );
}

#[test]
fn clicking_the_rightmost_column_clears_the_row_and_prunes_the_empty_header() {
    let mut app = fixture(&now_line("r", "a.txt"));
    let idx = app.cursor.unwrap();
    app.click_row(idx, 79, 80);
    assert!(
        app.rows.is_empty(),
        "clearing the only item should also drop its now-empty header"
    );
}

#[test]
fn clearing_persists_so_a_fresh_backfill_does_not_resurrect_it() {
    let log = now_line("r", "a.txt");
    let mut app = fixture(&log);
    let idx = app.cursor.unwrap();
    app.click_row(idx, 79, 80);
    assert!(app.rows.is_empty());

    // What the event loop appends to the cleared-marks file, read back by a new panel.
    let marked: Vec<String> = app
        .take_effects()
        .into_iter()
        .filter_map(|e| match e {
            Effect::MarkCleared(k) => Some(k),
            _ => None,
        })
        .collect();
    let reopened = fixture_with(&log, MarkSet::from_lines(marked));
    assert!(
        reopened.rows.is_empty(),
        "a fresh backfill should skip an already-cleared item"
    );
}

#[test]
fn clearing_a_group_header_clears_every_item_under_it() {
    let mut app = fixture(&two_line_group("r", "a.txt", "b.txt"));
    app.cursor = Some(1);
    app.clear_cursor();
    assert!(app.rows.is_empty());
}

#[test]
fn clearing_one_item_leaves_the_header_and_the_other_item() {
    let mut app = fixture(&two_line_group("r", "a.txt", "b.txt"));
    app.cursor = Some(2);
    app.clear_cursor();
    assert_eq!(app.rows.len(), 3);
    assert!(matches!(app.rows[0], Row::Blank));
    assert!(matches!(app.rows[1], Row::GroupHeader { .. }));
    assert!(matches!(&app.rows[2], Row::FileItem { label, .. } if label == "b.txt"));
}

#[test]
fn scroll_by_clamps_and_never_moves_the_cursor() {
    let contents: String = (0..20)
        .map(|i| now_line("r", &format!("f{i}.txt")))
        .collect();
    let mut app = fixture(&contents);
    app.set_visible_height(5);
    let cursor_before = app.cursor;

    app.scroll_by(-1000);
    assert_eq!(app.scroll, 0);
    assert_eq!(app.cursor, cursor_before);

    app.scroll_by(1000);
    assert_eq!(app.scroll, app.rows.len() - 5);
    assert_eq!(app.cursor, cursor_before);
}

#[test]
fn poll_recovers_when_the_log_is_truncated() {
    let mut app = fixture(&now_line("r", "a.txt"));
    assert!(!app.rows.is_empty());
    app.poll(
        &TailRead::Snapshot { len: 0, text: None },
        MarkSet::new(),
        MarkSet::new(),
    );
    assert!(app.rows.is_empty());
}

#[test]
fn poll_retroactively_drops_items_cleared_by_another_instance() {
    let mut app = fixture(&now_line("r", "a.txt"));
    let key = {
        let Row::FileItem { key, .. } = &app.rows[app.cursor.unwrap()] else {
            panic!("expected FileItem")
        };
        key.clone()
    };
    let offset = app.log_offset();
    app.poll(
        &TailRead::Snapshot {
            len: offset,
            text: None,
        },
        MarkSet::new(),
        MarkSet::from_lines(vec![key]),
    );
    assert!(app.rows.is_empty());
}
