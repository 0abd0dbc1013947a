use kondo::report::{Action, Colour, LineStyle, Report, ReportEntry};

fn some(s: &str) -> Option<String> {
    Some(s.to_string())
}

#[test]
fn test_report_counts() {
    let mut report = Report::default();
    report.push(Action::Move, "a.png".to_string(), some("/dest/a.png"), None);
    report.push(Action::Move, "b.png".to_string(), some("/dest/b.png"), None);
    report.push(Action::Unmanaged, "c.zip".to_string(), None, some("no matching rule"));
    report.push(Action::Error, "d.png".to_string(), None, some("permission denied"));

    assert_eq!(report.count(&Action::Move), 2);
    assert_eq!(report.count(&Action::Unmanaged), 1);
    assert_eq!(report.count(&Action::Error), 1);
    assert_eq!(report.count(&Action::Dedup), 0);
    assert_eq!(report.count(&Action::Skip), 0);
    assert_eq!(report.count(&Action::Conflict), 0);
    assert_eq!(report.count(&Action::Exclude), 0);
}

#[test]
fn test_report_entry_display_with_reason() {
    let entry = ReportEntry {
        action: Action::Unmanaged,
        source: "/downloads/test.zip".to_string(),
        destination: None,
        reason: some("no matching rule"),
    };
    assert_eq!(entry.display(), "/downloads/test.zip (no matching rule)");
}

#[test]
fn test_report_entry_display_with_dest() {
    let entry = ReportEntry {
        action: Action::Move,
        source: "/downloads/photo.png".to_string(),
        destination: some("/pictures/photo.png"),
        reason: None,
    };
    assert_eq!(entry.display(), "/downloads/photo.png -> /pictures/photo.png");
}

#[test]
fn test_report_entry_display_with_dest_and_reason() {
    let entry = ReportEntry {
        action: Action::Skip,
        source: "/downloads/photo.png".to_string(),
        destination: some("/pictures/photo.png"),
        reason: some("already exists at /pictures"),
    };
    assert_eq!(
        entry.display(),
        "/downloads/photo.png -> /pictures/photo.png (already exists at /pictures)"
    );
}

#[test]
fn test_action_labels() {
    assert_eq!(Action::Move.present(), "move");
    assert_eq!(Action::Move.past(), "moved");
    assert_eq!(Action::Dedup.present(), "dedup");
    assert_eq!(Action::Dedup.past(), "deduped");
    assert_eq!(Action::Skip.present(), "skip");
    assert_eq!(Action::Skip.past(), "skipped");
    assert_eq!(Action::Unmanaged.present(), "unmanaged");
    assert_eq!(Action::Unmanaged.past(), "unmanaged");
}

#[test]
fn test_empty_report() {
    let report = Report::default();
    assert_eq!(report.entries.len(), 0);
    assert_eq!(report.count(&Action::Move), 0);
}

#[test]
fn labels_of_the_other_actions() {
    assert_eq!(Action::Conflict.present(), "conflict");
    assert_eq!(Action::Conflict.past(), "conflict");
    assert_eq!(Action::Exclude.present(), "exclude");
    assert_eq!(Action::Exclude.past(), "excluded");
    assert_eq!(Action::Error.present(), "error");
    assert_eq!(Action::Error.past(), "error");
    assert_eq!(Action::Move.label(true), "move");
    assert_eq!(Action::Move.label(false), "moved");
}

#[test]
fn entry_without_destination_or_reason_reads_as_source() {
    let entry = ReportEntry {
        action: Action::Move,
        source: "x".to_string(),
        destination: None,
        reason: None,
    };
    assert_eq!(entry.display(), "x");
}

fn sample_report() -> Report {
    let mut report = Report::default();
    report.push(Action::Move, "a.png".to_string(), some("/p/a.png"), None);
    report.push(Action::Unmanaged, "c.zip".to_string(), None, some("no matching rule"));
    report.push(Action::Skip, "b.png".to_string(), some("/p/b.png"), some("already exists at /p"));
    report.push(Action::Move, "e.png".to_string(), some("/p/e.png"), None);
    report.push(Action::Error, "d.png".to_string(), None, some("permission denied"));
    report
}

#[test]
fn summary_lists_every_action_in_order_and_counts_add_up() {
    let report = sample_report();
    let rows = report.summary(true);
    let actions: Vec<Action> = rows.iter().map(|r| r.action).collect();
    assert_eq!(
        actions,
        vec![
            Action::Unmanaged,
            Action::Exclude,
            Action::Move,
            Action::Dedup,
            Action::Skip,
            Action::Conflict,
            Action::Error
        ]
    );
    let labels: Vec<&str> = rows.iter().map(|r| r.label.as_str()).collect();
    assert_eq!(labels, vec!["unmanaged", "exclude", "move", "dedup", "skip", "conflict", "error"]);
    let counts: Vec<usize> = rows.iter().map(|r| r.count).collect();
    assert_eq!(counts, vec![1, 0, 2, 0, 1, 0, 1]);
    assert_eq!(counts.iter().sum::<usize>(), report.entries.len());
    let past: Vec<String> = report.summary(false).into_iter().map(|r| r.label).collect();
    assert_eq!(past, vec!["unmanaged", "excluded", "moved", "deduped", "skipped", "conflict", "error"]);
}

#[test]
fn details_hide_moves_and_unmanaged_unless_verbose() {
    let report = sample_report();
    let rows = report.details(false, false);
    let got: Vec<(Action, String, String)> =
        rows.into_iter().map(|r| (r.action, r.label, r.text)).collect();
    assert_eq!(
        got,
        vec![
            (
                Action::Skip,
                "skipped".to_string(),
                "b.png -> /p/b.png (already exists at /p)".to_string()
            ),
            (Action::Error, "error".to_string(), "d.png (permission denied)".to_string()),
        ]
    );
    let verbose = report.details(true, true);
    assert_eq!(verbose.len(), report.entries.len());
    assert_eq!(verbose[0].action, Action::Unmanaged);
    assert_eq!(verbose[0].label, "unmanaged");
    assert_eq!(verbose[0].text, "c.zip (no matching rule)");
    assert_eq!(verbose[1].label, "move");
    assert_eq!(verbose[1].text, "a.png -> /p/a.png");
    assert_eq!(verbose[2].text, "e.png -> /p/e.png");
}

#[test]
fn empty_report_has_zero_counts_and_no_details() {
    let report = Report::default();
    assert!(report.summary(true).iter().all(|r| r.count == 0));
    assert_eq!(report.summary(true).len(), 7);
    assert!(report.details(true, true).is_empty());
}

fn printed(report: &Report, dry_run: bool, verbose: bool) -> String {
    let mut out = String::new();
    for line in report.lines(dry_run, verbose) {
        out.push_str(&line.lead);
        out.push_str(&line.styled);
        out.push_str(&line.rest);
        out.push('\n');
    }
    out
}

#[test]
fn printed_report_without_details() {
    let mut r = Report::default();
    r.push(Action::Unmanaged, "c.zip".to_string(), None, some("no matching rule"));
    assert_eq!(
        printed(&r, true, false),
        "kondo report (dry run)\n  unmanaged     1 file(s)\n  exclude       0 file(s)\n  move          0 file(s)\n  dedup         0 file(s)\n  skip          0 file(s)\n  conflict      0 file(s)\n  error         0 file(s)\n"
    );
    assert_eq!(r.entries.len(), 1);
}

#[test]
fn printed_report_with_details() {
    let report = sample_report();
    assert_eq!(
        printed(&report, false, true),
        "kondo report\n  unmanaged     1 file(s)\n  excluded      0 file(s)\n  moved         2 file(s)\n  deduped       0 file(s)\n  skipped       1 file(s)\n  conflict      0 file(s)\n  error         1 file(s)\n\ndetails:\n  unmanaged  c.zip (no matching rule)\n  moved      a.png -> /p/a.png\n  moved      e.png -> /p/e.png\n  skipped    b.png -> /p/b.png (already exists at /p)\n  error      d.png (permission denied)\n"
    );
    let lines = report.lines(false, false);
    assert_eq!(lines.len(), 1 + 7 + 2 + 2);
    assert_eq!(lines[0].style, LineStyle::Title);
    assert_eq!(lines[9].style, LineStyle::Heading);
    assert_eq!(lines[10].style, LineStyle::OfAction(Action::Skip));
}

#[test]
fn printed_report_pads_large_counts() {
    let mut r = Report::default();
    for i in 0..12345 {
        r.push(Action::Move, format!("f{}", i), None, None);
    }
    let text = printed(&r, true, false);
    assert!(text.contains("\n  move       12345 file(s)\n"));
}

#[test]
fn action_colours() {
    assert_eq!(Action::Move.colour(), Colour::Green);
    assert_eq!(Action::Dedup.colour(), Colour::Green);
    assert_eq!(Action::Skip.colour(), Colour::Yellow);
    assert_eq!(Action::Conflict.colour(), Colour::Red);
    assert_eq!(Action::Error.colour(), Colour::Red);
    assert_eq!(Action::Exclude.colour(), Colour::Dimmed);
    assert_eq!(Action::Unmanaged.colour(), Colour::Dimmed);
}

#[test]
fn verbose_details_list_each_entry_once() {
    let report = sample_report();
    let rows = report.details(false, true);
    assert_eq!(rows.len(), report.entries.len());
    for e in &report.entries {
        let text = e.display();
        assert_eq!(rows.iter().filter(|r| r.action == e.action && r.text == text).count(), 1);
    }
}
