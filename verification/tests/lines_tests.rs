use smartcat::lines::{Line, LineStatus, Lines, TargetUnreachable};

const MARKER: &str = "...";

fn rows(texts: &[&str]) -> Vec<String> {
    texts.iter().map(|t| t.to_string()).collect()
}

fn multiline_rows() -> Vec<String> {
    rows(&["first", "second", "third", "fourth", "fifth", "sixt"])
}

fn make_lines_head() -> Lines {
    let mut lines = Lines::from_rows(&multiline_rows(), 10, 10);
    for (i, prio) in [0, 1, 2, 3, 4, 5].iter().enumerate() {
        lines.lines[i].prio.push(*prio);
    }
    lines
}

fn make_lines_tail() -> Lines {
    let mut lines = Lines::from_rows(&multiline_rows(), 10, 10);
    for (i, prio) in [5, 4, 3, 2, 1, 0].iter().enumerate() {
        lines.lines[i].prio.push(*prio);
    }
    lines
}

fn make_lines_snake() -> Lines {
    let mut lines = Lines::from_rows(&multiline_rows(), 10, 10);
    for (i, prio) in [0, 1, 0, 1, 0, 1].iter().enumerate() {
        lines.lines[i].prio.push(*prio);
    }
    lines
}

fn is_verbatim(status: &LineStatus) -> bool {
    matches!(status, LineStatus::Kept | LineStatus::Discardable)
}

#[test]
fn new_lines() {
    let t = "01234567890";
    let short_line = Line::new(t, 20);
    assert!(short_line.prio.is_empty());
    assert_eq!(short_line.text, t);
    assert_eq!(short_line.status, LineStatus::Kept);

    let long_line = Line::new(t, 8);
    assert!(long_line.prio.is_empty());
    assert_eq!(long_line.text, "01234567");
}

#[test]
fn new_line_multibyte() {
    // Truncation counts characters, not bytes.
    let line = Line::new("\u{251c} abc", 3);
    assert_eq!(line.text, "\u{251c} a");
}

#[test]
fn cmp_lines() {
    let first_line = Line { prio: vec![10, 20, 30], text: String::from("x"), status: LineStatus::Kept };
    let second_line = Line { prio: vec![10, 21, 30], text: String::from("x"), status: LineStatus::Kept };
    let third_line = Line { prio: vec![11, 21, 30], text: String::from("x"), status: LineStatus::Kept };
    let fourth_line = Line { prio: vec![12], text: String::from("x"), status: LineStatus::Kept };
    let fifth_line = Line { prio: vec![12], text: String::from("y"), status: LineStatus::Kept };
    assert!(first_line.prio_lt(&second_line));
    assert!(second_line.prio_lt(&third_line));
    assert!(third_line.prio_lt(&fourth_line));
    assert!(!fourth_line.prio_lt(&third_line));
    // Equality goes by priority alone; the texts differ.
    assert!(fifth_line == fourth_line);
    assert!(first_line != second_line);
    // A proper prefix orders before every extension of it.
    let prefix = Line { prio: vec![12], text: String::from("x"), status: LineStatus::Kept };
    let longer = Line { prio: vec![12, 0], text: String::from("x"), status: LineStatus::Kept };
    assert!(prefix.prio_lt(&longer));
    assert!(!longer.prio_lt(&prefix));
}

#[test]
fn lines_read_write() {
    let lines = Lines::from_rows(&multiline_rows(), 10, 10);
    let s = lines.write(MARKER);
    assert_eq!(s, "first\nsecond\nthird\nfourth\nfifth\nsixt\n");
}

#[test]
fn write_lines() {
    let mut lines = Lines::from_rows(&multiline_rows(), 10, 10);
    lines.lines[0].status = LineStatus::Discardable;
    lines.lines[1].status = LineStatus::Discarded;
    lines.lines[2].status = LineStatus::Marker;
    let s = lines.write(MARKER);
    assert_eq!(s, "first\n...\nfourth\nfifth\nsixt\n");
}

#[test]
fn write_honors_marker_token() {
    let mut lines = Lines::from_rows(&rows(&["a", "b"]), 10, 10);
    lines.lines[1].status = LineStatus::Marker;
    assert_eq!(lines.write("[snip]"), "a\n[snip]\n");
}

#[test]
fn lines_trim_columns() {
    let lines = Lines::from_rows(&multiline_rows(), 3, 10);
    let s = lines.write(MARKER);
    assert_eq!(s, "fir\nsec\nthi\nfou\nfif\nsix\n");
}

#[test]
fn scenario_column_truncation() {
    let lines = Lines::from_rows(&rows(&["first", "second", "third"]), 3, 10);
    assert_eq!(lines.write(MARKER), "fir\nsec\nthi\n");
}

#[test]
fn kept_lines() {
    let mut lines = Lines::from_rows(&multiline_rows(), 10, 10);
    assert_eq!(lines.kept_lines(), 6);
    lines.lines[0].status = LineStatus::Discarded;
    assert_eq!(lines.kept_lines(), 5);
    lines.lines[1].status = LineStatus::Discardable;
    assert_eq!(lines.kept_lines(), 5);
    lines.lines[2].status = LineStatus::Discarded;
    assert_eq!(lines.kept_lines(), 4);
}

#[test]
fn prune_head() {
    let mut lines = make_lines_head();
    lines.target_lines = 6;
    assert_eq!(lines.prune(), Ok(()));
    for line in &lines.lines {
        assert!(is_verbatim(&line.status));
    }

    lines.target_lines = 5;
    assert_eq!(lines.prune(), Ok(()));
    for line in &lines.lines[0..4] {
        assert!(is_verbatim(&line.status));
    }
    assert_eq!(lines.lines[4].status, LineStatus::Marker);
    assert_eq!(lines.lines[5].status, LineStatus::Discarded);

    lines.target_lines = 1;
    assert_eq!(lines.prune(), Ok(()));
    assert_eq!(lines.lines[0].status, LineStatus::Marker);
    for line in &lines.lines[1..6] {
        assert_eq!(line.status, LineStatus::Discarded);
    }
}

#[test]
fn prune_tail() {
    let mut lines = make_lines_tail();
    lines.target_lines = 6;
    assert_eq!(lines.prune(), Ok(()));
    for line in &lines.lines {
        assert!(is_verbatim(&line.status));
    }

    lines.target_lines = 4;
    assert_eq!(lines.prune(), Ok(()));
    assert_eq!(lines.lines[0].status, LineStatus::Marker);
    assert_eq!(lines.lines[1].status, LineStatus::Discarded);
    assert_eq!(lines.lines[2].status, LineStatus::Discarded);
    for line in &lines.lines[3..6] {
        assert!(is_verbatim(&line.status));
    }
}

#[test]
fn prune_snake() {
    let mut lines = make_lines_snake();
    lines.target_lines = 4;
    let _ = lines.prune();
    assert!(lines.kept_lines() <= 4);
    assert!(lines.kept_lines() >= 3);
}

#[test]
fn prune_keeps_texts_and_order() {
    let mut lines = make_lines_head();
    lines.target_lines = 2;
    assert_eq!(lines.prune(), Ok(()));
    let texts: Vec<&str> = lines.lines.iter().map(|l| l.text.as_str()).collect();
    assert_eq!(texts, ["first", "second", "third", "fourth", "fifth", "sixt"]);
}

#[test]
fn prune_unreachable_target_reports() {
    let mut lines = make_lines_head();
    lines.target_lines = 0;
    assert_eq!(lines.prune(), Err(TargetUnreachable));
    // Best effort: one marker stands in for the whole text.
    assert_eq!(lines.kept_lines(), 1);
    assert_eq!(lines.lines[0].status, LineStatus::Marker);
    for line in &lines.lines[1..6] {
        assert_eq!(line.status, LineStatus::Discarded);
    }
    assert_eq!(lines.write(MARKER), "...\n");
}

#[test]
fn prune_empty_collection() {
    let mut lines = Lines::from_rows(&rows(&[]), 10, 0);
    assert_eq!(lines.prune(), Ok(()));
    assert_eq!(lines.kept_lines(), 0);
    assert_eq!(lines.write(MARKER), "");
}

#[test]
fn prune_at_target_changes_nothing() {
    let mut lines = make_lines_head();
    lines.target_lines = 6;
    assert_eq!(lines.prune(), Ok(()));
    let before: Vec<LineStatus> = lines.lines.iter().map(|l| l.status).collect();
    assert_eq!(lines.prune(), Ok(()));
    let after: Vec<LineStatus> = lines.lines.iter().map(|l| l.status).collect();
    assert_eq!(before, after);
}

#[test]
fn prune_twice_is_prune_once() {
    let mut lines = make_lines_snake();
    lines.target_lines = 3;
    let first = lines.prune();
    let statuses: Vec<LineStatus> = lines.lines.iter().map(|l| l.status).collect();
    let second = lines.prune();
    let statuses_again: Vec<LineStatus> = lines.lines.iter().map(|l| l.status).collect();
    assert_eq!(statuses, statuses_again);
    if first.is_ok() {
        assert_eq!(second, Ok(()));
    }
}
