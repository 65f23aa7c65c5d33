use review_panel::log::{append_row, backfill, parse_line, poll_tail, resolve_abspath};
use review_panel::log::{ParsedLine, Row, TailRead};
use review_panel::marks::MarkSet;

#[test]
fn parses_a_review_line_with_no_kind_field() {
    let line = "2026-09-09 11:24:32 session=abc repo=herdr-review-panel cwd=/home/d item=herdr-plugin.toml";
    let parsed = parse_line(line).unwrap();
    assert_eq!(parsed.ts, "2026-09-09 11:24:32");
    assert_eq!(parsed.session, "abc");
    assert_eq!(parsed.repo, "herdr-review-panel");
    assert_eq!(parsed.cwd.as_deref(), Some("/home/d"));
    assert!(!parsed.is_command);
    assert_eq!(parsed.step, None);
    assert_eq!(parsed.warn, None);
    assert_eq!(parsed.item, "herdr-plugin.toml");
}

#[test]
fn parses_a_command_line_with_a_step_label() {
    let line = "2026-09-09 12:00:00 session=abc repo=deetss cwd=/home/d kind=command step=2a item=sudo apt update";
    let parsed = parse_line(line).unwrap();
    assert!(parsed.is_command);
    assert_eq!(parsed.step.as_deref(), Some("2a"));
    assert_eq!(parsed.warn, None);
    assert_eq!(parsed.item, "sudo apt update");
}

#[test]
fn parses_a_command_line_flagged_by_the_prose_heuristic() {
    let line = "2026-09-09 12:00:00 session=abc repo=deetss cwd=/home/d kind=command warn=prose item=redeploy the app in Dokploy";
    let parsed = parse_line(line).unwrap();
    assert!(parsed.is_command);
    assert_eq!(parsed.warn.as_deref(), Some("prose"));
    assert_eq!(parsed.item, "redeploy the app in Dokploy");
}

#[test]
fn item_captures_the_rest_of_the_line_including_spaces_and_pipes() {
    let line = "2026-09-09 12:00:00 session=abc repo=deetss cwd=/home/d kind=command item=echo hi | sudo tee /x";
    let parsed = parse_line(line).unwrap();
    assert_eq!(parsed.item, "echo hi | sudo tee /x");
}

#[test]
fn rejects_a_line_missing_item() {
    let line = "2026-09-09 12:00:00 session=abc repo=deetss cwd=/home/d kind=command";
    assert!(parse_line(line).is_none());
}

#[test]
fn rejects_a_line_with_too_few_fields() {
    assert!(parse_line("2026-09-09").is_none());
    assert!(parse_line("").is_none());
}

#[test]
fn parses_v2_with_spaces_in_repo_and_cwd() {
    let line = "2026-09-11 18:26:26\tsession=881a\trepo=Dylan Vault\tcwd=/home/deetss/Documents/Dylan Vault\tkind=command\tstep=6b\titem=qm set 9002 --name x";
    let parsed = parse_line(line).unwrap();
    assert_eq!(parsed.repo, "Dylan Vault");
    assert_eq!(
        parsed.cwd.as_deref(),
        Some("/home/deetss/Documents/Dylan Vault")
    );
    assert!(parsed.is_command);
    assert_eq!(parsed.step.as_deref(), Some("6b"));
    assert_eq!(parsed.item, "qm set 9002 --name x");
}

#[test]
fn unescapes_a_multiline_item() {
    let line = "2026-09-11 18:26:26\tsession=a\trepo=r\tcwd=/c\tkind=command\titem=sudo tee /x <<'EOF'\\n[sshd]\\nenabled = true\\nEOF";
    let parsed = parse_line(line).unwrap();
    assert_eq!(
        parsed.item,
        "sudo tee /x <<'EOF'\n[sshd]\nenabled = true\nEOF"
    );
    assert!(parsed.raw_item.contains("\\n"));
}

#[test]
fn distinguishes_a_literal_backslash_n_from_a_newline() {
    let line =
        "2026-09-11 18:26:26\tsession=a\trepo=r\tcwd=/c\tkind=command\titem=printf 'a\\\\nb'";
    let parsed = parse_line(line).unwrap();
    assert_eq!(parsed.item, "printf 'a\\nb'");
    assert!(!parsed.item.contains('\n'));
}

#[test]
fn an_item_containing_kind_equals_command_does_not_set_a_phantom_kind() {
    let line = "2026-09-11 18:26:26\tsession=a\trepo=r\tcwd=/c\tkind=review\titem=grep kind=command /var/log/x";
    let parsed = parse_line(line).unwrap();
    assert!(!parsed.is_command);
    assert_eq!(parsed.item, "grep kind=command /var/log/x");
}

#[test]
fn an_item_containing_step_equals_does_not_set_a_phantom_step() {
    let line =
        "2026-09-11 18:26:26\tsession=a\trepo=r\tcwd=/c\tkind=command\titem=echo step=\"2a\"";
    let parsed = parse_line(line).unwrap();
    assert_eq!(parsed.step, None);
}

#[test]
fn legacy_space_delimited_lines_still_parse() {
    let line =
        "2026-09-09 11:24:32 session=abc repo=deetss cwd=/home/d kind=command item=git status";
    let parsed = parse_line(line).unwrap();
    assert_eq!(parsed.item, "git status");
    assert_eq!(parsed.raw_item, "git status");
}

#[test]
fn the_mark_key_uses_the_escaped_item_so_it_stays_one_line() {
    let line = "2026-09-11 18:26:26\tsession=a\trepo=r\tcwd=/c\tkind=command\titem=one\\ntwo";
    let parsed = parse_line(line).unwrap();
    let mut rows = Vec::new();
    let mut last_key = None;
    append_row(&mut rows, &mut last_key, &parsed, "/home/d", &MarkSet::new());
    let key = rows
        .iter()
        .find_map(|r| match r {
            Row::CommandItem { key, .. } => Some(key.clone()),
            _ => None,
        })
        .unwrap();
    assert!(
        !key.contains('\n'),
        "mark key must stay on one line: {key:?}"
    );
    assert!(key.ends_with("one\\ntwo"));
}

#[test]
fn file_rows_carry_a_warn_reason_when_flagged() {
    let line = "2026-09-11 18:26:26\tsession=a\trepo=r\tcwd=/c\tkind=review\twarn=missing\titem=docs/gone.md";
    let parsed = parse_line(line).unwrap();
    let mut rows = Vec::new();
    let mut last_key = None;
    append_row(&mut rows, &mut last_key, &parsed, "/home/d", &MarkSet::new());
    let warn = rows
        .iter()
        .find_map(|r| match r {
            Row::FileItem { warn, .. } => Some(warn.clone()),
            _ => None,
        })
        .unwrap();
    assert_eq!(warn.as_deref(), Some("missing"));
}

#[test]
fn resolves_absolute_paths_unchanged() {
    assert_eq!(
        resolve_abspath("/etc/hosts", Some("/home/d"), "/home/d"),
        Some("/etc/hosts".to_string())
    );
}

#[test]
fn resolves_tilde_paths_against_home() {
    assert_eq!(
        resolve_abspath("~", None, "/home/d"),
        Some("/home/d".to_string())
    );
    assert_eq!(
        resolve_abspath("~/.ssh/config", None, "/home/d"),
        Some("/home/d/.ssh/config".to_string())
    );
}

#[test]
fn resolves_relative_paths_against_cwd() {
    assert_eq!(
        resolve_abspath("foo.txt", Some("/repo"), "/home/d"),
        Some("/repo/foo.txt".to_string())
    );
}

#[test]
fn relative_path_with_no_cwd_has_no_abspath() {
    assert_eq!(resolve_abspath("foo.txt", None, "/home/d"), None);
}

fn line(
    ts: &str,
    session: &str,
    repo: &str,
    is_command: bool,
    step: Option<&str>,
    item: &str,
) -> ParsedLine {
    ParsedLine {
        ts: ts.to_string(),
        session: session.to_string(),
        repo: repo.to_string(),
        cwd: Some("/home/d".to_string()),
        is_command,
        step: step.map(str::to_string),
        warn: None,
        item: item.to_string(),
        raw_item: item.to_string(),
    }
}

#[test]
fn groups_consecutive_items_sharing_timestamp_and_repo() {
    let mut rows = Vec::new();
    let mut last_key = None;
    let cleared = MarkSet::new();
    append_row(
        &mut rows,
        &mut last_key,
        &line("t1", "s1", "repo", false, None, "a.txt"),
        "/home/d",
        &cleared,
    );
    append_row(
        &mut rows,
        &mut last_key,
        &line("t1", "s1", "repo", false, None, "b.txt"),
        "/home/d",
        &cleared,
    );
    append_row(
        &mut rows,
        &mut last_key,
        &line("t2", "s1", "repo", false, None, "c.txt"),
        "/home/d",
        &cleared,
    );

    assert_eq!(rows.len(), 7);
    assert!(matches!(rows[0], Row::Blank));
    assert!(matches!(rows[1], Row::GroupHeader { .. }));
    assert!(matches!(rows[2], Row::FileItem { .. }));
    assert!(matches!(rows[3], Row::FileItem { .. }));
    assert!(matches!(rows[4], Row::Blank));
    assert!(matches!(rows[5], Row::GroupHeader { .. }));
    assert!(matches!(rows[6], Row::FileItem { .. }));
}

#[test]
fn command_rows_carry_their_step_label_and_a_stable_key() {
    let mut rows = Vec::new();
    let mut last_key = None;
    let cleared = MarkSet::new();
    append_row(
        &mut rows,
        &mut last_key,
        &line("t1", "s1", "repo", true, Some("2a"), "echo hi"),
        "/home/d",
        &cleared,
    );

    let Row::CommandItem {
        command,
        step,
        warn,
        key,
    } = &rows[2]
    else {
        panic!("expected CommandItem")
    };
    assert_eq!(command, "echo hi");
    assert_eq!(step.as_deref(), Some("2a"));
    assert_eq!(warn, &None);
    assert_eq!(key, "t1|s1|echo hi");
}

#[test]
fn command_rows_carry_a_warn_reason_when_flagged() {
    let mut rows = Vec::new();
    let mut last_key = None;
    let cleared = MarkSet::new();
    let mut flagged = line("t1", "s1", "repo", true, None, "redeploy the app");
    flagged.warn = Some("prose".to_string());
    append_row(&mut rows, &mut last_key, &flagged, "/home/d", &cleared);

    let Row::CommandItem { warn, .. } = &rows[2] else {
        panic!("expected CommandItem")
    };
    assert_eq!(warn.as_deref(), Some("prose"));
}

#[test]
fn skips_a_cleared_item_but_still_headers_the_next_item_in_its_group() {
    let mut rows = Vec::new();
    let mut last_key = None;
    let mut cleared = MarkSet::new();
    cleared.insert("t1|s1|a.txt".to_string());
    append_row(
        &mut rows,
        &mut last_key,
        &line("t1", "s1", "repo", false, None, "a.txt"),
        "/home/d",
        &cleared,
    );
    assert!(rows.is_empty());
    append_row(
        &mut rows,
        &mut last_key,
        &line("t1", "s1", "repo", false, None, "b.txt"),
        "/home/d",
        &cleared,
    );
    assert_eq!(rows.len(), 3);
    assert!(matches!(rows[0], Row::Blank));
    assert!(matches!(rows[1], Row::GroupHeader { .. }));
}

/// The lines `BufRead::lines` yields for `text`.
fn lines_of(text: &str) -> Vec<String> {
    text.lines().map(str::to_string).collect()
}

#[test]
fn backfill_only_includes_lines_at_or_after_cutoff() {
    let lines = lines_of(
        "2026-09-09 10:00:00 session=s repo=r cwd=/home/d item=old.txt\n2026-09-09 12:00:00 session=s repo=r cwd=/home/d item=new.txt\n",
    );

    let mut rows = Vec::new();
    let mut last_key = None;
    let cleared = MarkSet::new();
    let offset = backfill(
        &lines,
        "2026-09-09 11:00:00",
        &mut rows,
        &mut last_key,
        "/home/d",
        &cleared,
    );

    assert!(offset > 0);
    let Row::FileItem { label, .. } = rows.last().unwrap() else {
        panic!("expected FileItem")
    };
    assert_eq!(label, "new.txt");
    assert_eq!(rows.len(), 3);
}

#[test]
fn poll_tail_only_consumes_complete_lines() {
    let text = "2026-09-09 12:00:00 session=s repo=r cwd=/home/d item=a.txt\n2026-09-09 12:00:01 session=s repo=r cwd=/home/d item=partial";
    let len = text.len() as u64;

    let mut rows = Vec::new();
    let mut last_key = None;
    let cleared = MarkSet::new();
    let offset = poll_tail(
        0,
        &TailRead::Snapshot {
            len,
            text: Some(text.to_string()),
        },
        &mut rows,
        &mut last_key,
        "/home/d",
        &cleared,
    );

    assert_eq!(rows.len(), 3);
    let Row::FileItem { label, .. } = &rows[2] else {
        panic!("expected FileItem")
    };
    assert_eq!(label, "a.txt");
    assert!(offset < len);
}

#[test]
fn poll_tail_recovers_from_truncation() {
    let first = "2026-09-09 12:00:00 session=s repo=r cwd=/home/d item=a.txt\n";
    let mut rows = Vec::new();
    let mut last_key = None;
    let cleared = MarkSet::new();
    let offset = poll_tail(
        0,
        &TailRead::Snapshot {
            len: first.len() as u64,
            text: Some(first.to_string()),
        },
        &mut rows,
        &mut last_key,
        "/home/d",
        &cleared,
    );
    assert_eq!(rows.len(), 3);

    // The file shrinks to nothing out from under the stale offset.
    let offset_after_clear = poll_tail(
        offset,
        &TailRead::Snapshot { len: 0, text: None },
        &mut rows,
        &mut last_key,
        "/home/d",
        &cleared,
    );
    assert_eq!(offset_after_clear, 0);
    assert!(
        rows.is_empty(),
        "truncation must wipe previously-appended rows"
    );

    let fresh = "2026-09-09 12:05:00 session=s repo=r cwd=/home/d item=b.txt\n";
    poll_tail(
        offset_after_clear,
        &TailRead::Snapshot {
            len: fresh.len() as u64,
            text: Some(fresh.to_string()),
        },
        &mut rows,
        &mut last_key,
        "/home/d",
        &cleared,
    );
    assert_eq!(rows.len(), 3);
    let Row::FileItem { label, .. } = &rows[2] else {
        panic!("expected FileItem")
    };
    assert_eq!(label, "b.txt");
}
