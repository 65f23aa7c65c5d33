use review_panel::actions::{classify_opener, clipboard_sequence, file_label, opened_message, Opener};
use review_panel::app::{App, Effect};
use review_panel::log::{append_row, parse_line, poll_tail, read_start, Row, TailRead};
use review_panel::marks::MarkSet;
use review_panel::render::{detail_lines, render_row, Style};

const NOW: &str = "2026-09-09 12:00:00";

fn app_with(text: &str) -> App {
    let lines: Vec<String> = text.lines().map(str::to_string).collect();
    App::from_log(
        &lines,
        "2026-09-09 11:50:00",
        "/home/d".to_string(),
        MarkSet::new(),
        MarkSet::new(),
    )
}

/// jq's `@tsv` escaping, for building v2 lines in tests.
fn tsv(s: &str) -> String {
    s.replace('\\', "\\\\")
        .replace('\n', "\\n")
        .replace('\t', "\\t")
        .replace('\r', "\\r")
}

#[test]
fn a_written_v2_record_reads_back_exactly() {
    let repo = "my\trepo";
    let cwd = "C:\\Users\\d";
    let item = "cat <<'EOF'\nkind=command\tstep=9\r\nEOF\\";
    let line = format!(
        "{NOW}\tsession=s1\trepo={}\tcwd={}\tkind=command\tstep={}\twarn=prose\titem={}",
        tsv(repo),
        tsv(cwd),
        tsv("2a"),
        tsv(item)
    );
    let p = parse_line(&line).unwrap();
    assert_eq!(p.ts, NOW);
    assert_eq!(p.session, "s1");
    assert_eq!(p.repo, repo);
    assert_eq!(p.cwd.as_deref(), Some(cwd));
    assert!(p.is_command);
    assert_eq!(p.step.as_deref(), Some("2a"));
    assert_eq!(p.warn.as_deref(), Some("prose"));
    assert_eq!(p.item, item);
    assert_eq!(p.raw_item, tsv(item));
}

#[test]
fn later_fields_override_earlier_ones_in_v2() {
    let line = format!("{NOW}\trepo=a\trepo=b\titem=x\tnoequals\tother=1");
    let p = parse_line(&line).unwrap();
    assert_eq!(p.repo, "b");
    assert_eq!(p.session, "");
    assert_eq!(p.cwd, None);
    assert!(!p.is_command);
}

#[test]
fn a_v2_line_with_a_malformed_timestamp_is_rejected() {
    assert!(parse_line("2026-09-09T12:00:00\trepo=r\titem=x").is_none());
    assert!(parse_line("short\trepo=r\titem=x").is_none());
    // 19 characters but more than 19 bytes.
    assert!(parse_line("2026-09-09 12:00:0é\trepo=r\titem=x").is_none());
}

#[test]
fn a_v2_line_without_repo_or_item_is_rejected() {
    assert!(parse_line(&format!("{NOW}\trepo=r")).is_none());
    assert!(parse_line(&format!("{NOW}\titem=x")).is_none());
}

#[test]
fn unknown_and_trailing_escapes_pass_through_verbatim() {
    let p = parse_line(&format!("{NOW}\trepo=r\titem=a\\qb\\")).unwrap();
    assert_eq!(p.item, "a\\qb\\");
}

#[test]
fn a_legacy_line_needs_a_date_and_a_time() {
    assert!(parse_line(" 12:00:00 repo=r item=x").is_none());
    assert!(parse_line("2026-09-09  repo=r item=x").is_none());
    let p = parse_line("d t repo=r item=x").unwrap();
    assert_eq!(p.ts, "d t");
}

#[test]
fn the_mark_key_joins_timestamp_session_and_raw_item() {
    let p = parse_line(&format!("{NOW}\tsession=abc\trepo=r\tkind=command\titem=a\\tb")).unwrap();
    let mut rows = Vec::new();
    let mut last = None;
    append_row(&mut rows, &mut last, &p, "/h", &MarkSet::new());
    let Row::CommandItem { key, command, .. } = &rows[2] else {
        panic!("expected CommandItem")
    };
    assert_eq!(key, &format!("{NOW}|abc|a\\tb"));
    assert_eq!(command, "a\tb");
}

#[test]
fn poll_tail_leaves_exactly_the_partial_line() {
    let text = "2026-09-09 12:00:00 session=s repo=r item=é.txt\nhalf";
    let mut rows = Vec::new();
    let mut last = None;
    let offset = poll_tail(
        7,
        &TailRead::Snapshot {
            len: 7 + text.len() as u64,
            text: Some(text.to_string()),
        },
        &mut rows,
        &mut last,
        "/h",
        &MarkSet::new(),
    );
    assert_eq!(offset + "half".len() as u64, 7 + text.len() as u64);
    assert_eq!(rows.len(), 3);
}

#[test]
fn poll_tail_with_an_unreadable_file_changes_nothing() {
    let mut rows = Vec::new();
    let mut last = None;
    let offset = poll_tail(42, &TailRead::Unavailable, &mut rows, &mut last, "/h", &MarkSet::new());
    assert_eq!(offset, 42);
    assert!(rows.is_empty());
    assert_eq!(read_start(42, 10), 0);
    assert_eq!(read_start(42, 50), 42);
}

#[test]
fn classify_reads_the_last_opener_word() {
    assert!(matches!(classify_opener("trying\nopener=code\n"), Opener::Editor));
    assert!(matches!(classify_opener("  opener=xdg-open  "), Opener::Fallback));
    assert!(matches!(classify_opener("explorer"), Opener::Fallback));
    assert!(matches!(classify_opener("opener=code opener=explorer"), Opener::Fallback));
    assert!(matches!(classify_opener("opener=vim"), Opener::Unknown));
    assert!(matches!(classify_opener(""), Opener::Unknown));
    assert!(matches!(classify_opener("\u{3000}code\u{a0}"), Opener::Editor));
}

#[test]
fn file_labels_follow_path_components() {
    assert_eq!(file_label("/a/b/c.txt"), "c.txt");
    assert_eq!(file_label("/a/b/"), "b");
    assert_eq!(file_label("a/."), "a");
    assert_eq!(file_label("/"), "/");
    assert_eq!(file_label("a/.."), "a/..");
    assert_eq!(file_label(""), "");
}

#[test]
fn opened_messages_name_the_file_and_the_fallback() {
    assert_eq!(opened_message("x.md", &Opener::Editor), "Opened x.md");
    assert_eq!(opened_message("x.md", &Opener::Unknown), "Opened x.md");
    assert_eq!(
        opened_message("x.md", &Opener::Fallback),
        "Opened x.md (fallback opener, view may not match)"
    );
}

#[test]
fn the_clipboard_sequence_is_osc52_with_base64() {
    assert_eq!(clipboard_sequence("hi"), "\x1b]52;c;aGk=\x07");
    assert_eq!(clipboard_sequence(""), "\x1b]52;c;\x07");
    assert_eq!(
        clipboard_sequence("hello world~"),
        "\x1b]52;c;aGVsbG8gd29ybGR+\x07"
    );
}

#[test]
fn activating_a_command_queues_a_copy_and_says_so() {
    let mut app = app_with(&format!("{NOW} session=s repo=r kind=command item=echo hi\n"));
    app.set_clock(1000);
    app.activate_cursor();
    assert_eq!(app.status_text(), Some("Copied to clipboard"));
    let effects = app.take_effects();
    assert!(matches!(&effects[..], [Effect::CopyCommand(c)] if c == "echo hi"));
    app.set_clock(2499);
    assert_eq!(app.status_text(), Some("Copied to clipboard"));
    app.set_clock(2500);
    assert_eq!(app.status_text(), None);
}

#[test]
fn activating_a_file_queues_the_open_and_reports_the_opener() {
    let mut app = app_with(&format!("{NOW} session=s repo=r cwd=/repo item=docs/a.md\n"));
    app.activate_cursor();
    let effects = app.take_effects();
    assert!(matches!(&effects[..], [Effect::OpenFile(p)] if p == "/repo/docs/a.md"));
    assert_eq!(app.status_text(), None);
    app.file_opened("/repo/docs/a.md", &Opener::Fallback);
    assert_eq!(
        app.status_text(),
        Some("Opened a.md (fallback opener, view may not match)")
    );
}

#[test]
fn an_unresolved_file_cannot_be_activated() {
    let mut app = app_with(&format!("{NOW} session=s repo=r item=docs/a.md\n"));
    app.activate_cursor();
    assert!(app.take_effects().is_empty());
}

#[test]
fn closing_and_clearing_everything_are_queued() {
    let mut app = app_with(&format!("{NOW} session=s repo=r item=/a\n"));
    app.click_clear_all();
    assert_eq!(app.status_text(), Some("Cleared everything"));
    app.click_close();
    assert!(app.should_quit);
    let effects = app.take_effects();
    assert!(matches!(&effects[..], [Effect::ClearAll, Effect::Close]));
}

#[test]
fn clearing_one_section_keeps_the_other() {
    let mut app = app_with(&format!(
        "{NOW} session=s repo=a item=/1\n{NOW} session=s repo=b item=/2\n{NOW} session=s repo=b item=/3\n"
    ));
    assert_eq!(app.rows.len(), 7);
    app.cursor = Some(4); // header of repo b
    app.clear_cursor();
    assert_eq!(app.rows.len(), 3);
    assert!(matches!(&app.rows[1], Row::GroupHeader { repo, .. } if repo == "a"));
    let cleared = app
        .take_effects()
        .into_iter()
        .filter(|e| matches!(e, Effect::MarkCleared(_)))
        .count();
    assert_eq!(cleared, 2);
    assert_eq!(app.cursor, Some(2));
}

#[test]
fn done_marks_are_queued_once() {
    let mut app = app_with(&format!("{NOW} session=s repo=r kind=command item=ls\n"));
    app.toggle_done_cursor();
    app.toggle_done_cursor();
    assert_eq!(app.take_effects().len(), 1);
    assert_eq!(app.rows.len(), 3);
}

#[test]
fn polling_new_lines_moves_the_cursor_to_the_newest_item() {
    let first = format!("{NOW} session=s repo=r item=/a\n");
    let mut app = app_with(&first);
    let second = format!("{NOW} session=s repo=r item=/b\n");
    let offset = app.log_offset();
    assert_eq!(offset, first.len() as u64);
    let changed = app.poll(
        &TailRead::Snapshot {
            len: offset + second.len() as u64,
            text: Some(second.clone()),
        },
        MarkSet::new(),
        MarkSet::new(),
    );
    assert!(changed);
    assert_eq!(app.rows.len(), 4);
    assert_eq!(app.cursor, Some(3));
    assert_eq!(app.log_offset(), offset + second.len() as u64);
    let unchanged = app.poll(
        &TailRead::Snapshot {
            len: app.log_offset(),
            text: None,
        },
        MarkSet::new(),
        MarkSet::new(),
    );
    assert!(!unchanged);
}

#[test]
fn the_cursor_stays_visible_when_the_height_changes() {
    let contents: String = (0..10)
        .map(|i| format!("{NOW} session=s repo=r item=/f{i}\n"))
        .collect();
    let mut app = app_with(&contents);
    app.set_visible_height(3);
    let c = app.cursor.unwrap();
    assert!(app.scroll <= c && c < app.scroll + 3);
    app.move_cursor(-4);
    let c = app.cursor.unwrap();
    assert_eq!(c, 7);
    assert!(app.scroll <= c && c < app.scroll + 3);
}

#[test]
fn rows_render_with_the_clear_glyph_in_the_last_column() {
    let app = app_with("");
    let header = Row::GroupHeader {
        ts: "t1".to_string(),
        repo: "r".to_string(),
    };
    let line = render_row(&header, false, &app, 10);
    let texts: Vec<&str> = line.iter().map(|s| s.text.as_str()).collect();
    assert_eq!(texts, vec!["t1", "  ", "r", "    ", "x"]);
    assert_eq!(line[2].style, Style::Header);
    assert_eq!(line[4].style, Style::ClearIcon);

    let cmd = Row::CommandItem {
        command: "a\nb".to_string(),
        step: Some("2".to_string()),
        warn: Some("prose".to_string()),
        key: "k".to_string(),
    };
    let line = render_row(&cmd, true, &app, 5);
    let texts: Vec<&str> = line.iter().map(|s| s.text.as_str()).collect();
    assert_eq!(texts, vec!["  ", "[ ] ", "\u{26a0} ", "2. ", "a \u{23ce} b", "x"]);
    assert_eq!(line[1].style, Style::CheckboxHighlighted);
    assert_eq!(line[4].style, Style::CommandHighlighted);

    assert!(render_row(&Row::Blank, false, &app, 10).is_empty());
}

#[test]
fn activating_a_command_opens_it_full_screen_until_dismissed() {
    let mut app = app_with(&format!(
        "{NOW}\tsession=s\trepo=r\tkind=command\titem=cat <<EOF\\na\\nEOF\n"
    ));
    assert_eq!(app.detail, None);
    app.activate_cursor();
    assert_eq!(app.detail.as_deref(), Some("cat <<EOF\na\nEOF"));
    app.dismiss_detail();
    assert_eq!(app.detail, None);
    // Marking done with the checkbox opens nothing.
    let idx = app.cursor.unwrap();
    app.click_row(idx, 0, 80);
    assert_eq!(app.detail, None);
    // A click past the checkbox copies and opens it again.
    app.click_row(idx, 10, 80);
    assert_eq!(app.detail.as_deref(), Some("cat <<EOF\na\nEOF"));
}

#[test]
fn opening_a_file_shows_no_command() {
    let mut app = app_with(&format!("{NOW} session=s repo=r cwd=/repo item=a.md\n"));
    app.activate_cursor();
    assert_eq!(app.detail, None);
}

#[test]
fn the_detail_view_shows_the_commands_own_lines() {
    let texts = |cmd: &str| -> Vec<(String, Style)> {
        detail_lines(cmd).into_iter().map(|s| (s.text, s.style)).collect()
    };
    let plain = |t: &str| (t.to_string(), Style::Plain);
    assert_eq!(
        texts("a\r\nb\rc\n"),
        vec![
            ("command".to_string(), Style::Header),
            plain(""),
            plain("a"),
            plain("b\rc"),
            plain(""),
            ("Esc / Enter to dismiss".to_string(), Style::Dim),
        ]
    );
    assert_eq!(
        texts("x\n\ny"),
        vec![
            ("command".to_string(), Style::Header),
            plain(""),
            plain("x"),
            plain(""),
            plain("y"),
            plain(""),
            ("Esc / Enter to dismiss".to_string(), Style::Dim),
        ]
    );
    assert_eq!(texts("").len(), 4);
}
