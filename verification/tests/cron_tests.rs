use kondo::cli::{get_tool_validation_help, tool_status, Cli, Commands, CronAction, Task};
use kondo::cron::{
    cron_line, cron_status_from, crontab_with, crontab_without, day_name, describe_cron,
    describe_dow, describe_hour, describe_minute, format_hour,
};

const NOT_INSTALLED: &str = "\u{274c} not installed (use: kondo cron install)";

#[test]
fn minute_descriptions() {
    assert_eq!(describe_minute("*"), "every minute");
    assert_eq!(describe_minute("*/10"), "every 10 minutes");
    assert_eq!(describe_minute("0"), "on the hour");
    assert_eq!(describe_minute("45"), "at minute 45");
}

#[test]
fn hour_formats() {
    assert_eq!(format_hour("0"), "12am");
    assert_eq!(format_hour("5"), "5am");
    assert_eq!(format_hour("07"), "7am");
    assert_eq!(format_hour("+3"), "3am");
    assert_eq!(format_hour("11"), "11am");
    assert_eq!(format_hour("12"), "12pm");
    assert_eq!(format_hour("13"), "1pm");
    assert_eq!(format_hour("23"), "11pm");
    assert_eq!(format_hour("24"), "24");
    assert_eq!(format_hour("x"), "x");
    assert_eq!(format_hour(""), "");
    assert_eq!(format_hour("-1"), "-1");
}

#[test]
fn hour_descriptions() {
    assert_eq!(describe_hour("*/3"), "every 3 hours");
    assert_eq!(describe_hour("9-17"), "9am\u{2013}5pm");
    assert_eq!(describe_hour("1,13"), "at 1am, 1pm");
    assert_eq!(describe_hour("8"), "at 8am");
    assert_eq!(describe_hour("1-2-3"), "at 1-2-3");
    assert_eq!(describe_hour("1-2,3"), "1am\u{2013}2,3");
    assert_eq!(describe_hour("1,2-"), "1,2\u{2013}");
}

#[test]
fn day_descriptions() {
    assert_eq!(day_name("0"), "Sun");
    assert_eq!(day_name("7"), "Sun");
    assert_eq!(day_name("3"), "Wed");
    assert_eq!(day_name("mon"), "mon");
    assert_eq!(describe_dow("1-5"), "Mon-Fri");
    assert_eq!(describe_dow("0,6"), "Sun, Sat");
    assert_eq!(describe_dow("4"), "Thu");
    assert_eq!(describe_dow("1-2-3"), "1-2-3");
}

#[test]
fn schedule_descriptions() {
    assert_eq!(describe_cron("*/15 * * * *"), "every 15 minutes");
    assert_eq!(describe_cron("0 9 * * 1-5"), "on the hour, at 9am, Mon-Fri");
    assert_eq!(describe_cron("30 9,17 * * 0"), "at minute 30, at 9am, 5pm, Sun");
    assert_eq!(
        describe_cron("0 9-17 1 6 *"),
        "on the hour, 9am\u{2013}5pm, on day(s) 1, in month(s) 6"
    );
    assert_eq!(describe_cron("* */2 * * *"), "every minute, every 2 hours");
    assert_eq!(describe_cron("  */5  *\t* * *  "), "every 5 minutes");
    assert_eq!(describe_cron("bad"), "bad");
    assert_eq!(describe_cron("1 2 3 4 5 6"), "1 2 3 4 5 6");
}

#[test]
fn status_without_crontab() {
    assert_eq!(cron_status_from(None), NOT_INSTALLED);
    assert_eq!(cron_status_from(Some("")), NOT_INSTALLED);
    assert_eq!(cron_status_from(Some("0 * * * * backup\n")), NOT_INSTALLED);
}

#[test]
fn status_with_entry() {
    let crontab = "# comment\n*/15 * * * * /usr/bin/kondo # kondo-auto\n";
    assert_eq!(
        cron_status_from(Some(crontab)),
        "\u{2705} installed: */15 * * * * /usr/bin/kondo (every 15 minutes)"
    );
    assert_eq!(cron_status_from(Some("x # kondo-auto")), "\u{2705} installed: x");
    assert_eq!(
        cron_status_from(Some("  0 9 * * 1 kondo --config /c.yml # kondo-auto  \r\n")),
        "\u{2705} installed: 0 9 * * 1 kondo --config /c.yml (on the hour, at 9am, Mon)"
    );
}

#[test]
fn cron_lines() {
    assert_eq!(cron_line("*/15 * * * *", "/bin/kondo", None), "*/15 * * * * /bin/kondo");
    assert_eq!(
        cron_line("*/15 * * * *", "/bin/kondo", Some("/c.yml")),
        "*/15 * * * * /bin/kondo --config /c.yml"
    );
}

#[test]
fn install_replaces_old_entries() {
    let line = "*/15 * * * * /bin/kondo";
    assert_eq!(
        crontab_with("a\nb # kondo-auto\nc\n", line),
        "a\nc\n*/15 * * * * /bin/kondo # kondo-auto\n"
    );
    assert_eq!(crontab_with("", line), "*/15 * * * * /bin/kondo # kondo-auto\n");
    assert_eq!(crontab_with("a", line), "a\n*/15 * * * * /bin/kondo # kondo-auto\n");
}

#[test]
fn uninstall_removes_entries() {
    assert_eq!(crontab_without("a\nb # kondo-auto\nc\n"), "a\nc\n");
    assert_eq!(crontab_without(""), "\n");
    assert_eq!(crontab_without("x # kondo-auto\n"), "\n");
}

#[test]
fn install_then_status_reports_installed() {
    for existing in ["", "a\n", "a\n\n\n", "m # kondo-auto\n", "p\r\nq"] {
        let line = cron_line("*/15 * * * *", "/bin/kondo", None);
        let tab = crontab_with(existing, &line);
        assert_eq!(tab.lines().filter(|l| l.contains("# kondo-auto")).count(), 1);
        assert_eq!(
            cron_status_from(Some(&tab)),
            "\u{2705} installed: */15 * * * * /bin/kondo (every 15 minutes)"
        );
        assert_eq!(cron_status_from(Some(&crontab_without(&tab))), NOT_INSTALLED);
    }
}

#[test]
fn tool_statuses() {
    let found = tool_status(Some("dashify 1.2.3\nmore\n"));
    assert_eq!(found.version, "1.2.3");
    assert_eq!(found.status_icon, "\u{2705}");
    let blank = tool_status(Some(""));
    assert_eq!(blank.version, "unknown");
    let spaces = tool_status(Some("   \n1.0"));
    assert_eq!(spaces.version, "unknown");
    let missing = tool_status(None);
    assert_eq!(missing.version, "not found");
    assert_eq!(missing.status_icon, "\u{274c}");
}

#[test]
fn help_text_layout() {
    let d = tool_status(Some("dashify 0.4.1"));
    let r = tool_status(None);
    let status = "\u{274c} not installed (use: kondo cron install)";
    let mut expected = String::new();
    expected.push_str("OPTIONAL TOOLS:\n");
    expected.push_str(&format!(
        "  {} {:<10} {:>12}  (file renaming)\n",
        d.status_icon, "dashify", d.version
    ));
    expected.push_str(&format!(
        "  {} {:<10} {:>12}  (safe file removal with recovery)\n",
        r.status_icon, "rkvr", r.version
    ));
    expected.push('\n');
    expected.push_str(&format!("CRON STATUS:\n  {}\n", status));
    expected.push_str("\nLogs are written to: ~/.local/share/kondo/logs/kondo.log");
    assert_eq!(get_tool_validation_help(&d, &r, status), expected);
}

fn cli(command: Option<Commands>) -> Cli {
    Cli {
        config: None,
        verbose: true,
        dry_run: false,
        no_cache: false,
        preserve_paths: false,
        command,
    }
}

#[test]
fn tasks_follow_the_command_line() {
    match cli(None).task() {
        Task::Organize { dry_run, verbose } => {
            assert!(!dry_run);
            assert!(verbose);
        }
        _ => panic!("expected organize"),
    }
    let cron = |action| Some(Commands::Cron { action, schedule: "0 * * * *".to_string() });
    match cli(cron(CronAction::Install)).task() {
        Task::InstallCron { schedule } => assert_eq!(schedule, "0 * * * *"),
        _ => panic!("expected install"),
    }
    match cli(cron(CronAction::Reinstall)).task() {
        Task::ReinstallCron { schedule } => assert_eq!(schedule, "0 * * * *"),
        _ => panic!("expected reinstall"),
    }
    assert!(matches!(cli(cron(CronAction::Uninstall)).task(), Task::UninstallCron));
    assert!(matches!(cli(cron(CronAction::Status)).task(), Task::ShowCronStatus));
}

#[test]
fn second_install_leaves_crontab_unchanged() {
    let line = cron_line("*/15 * * * *", "/usr/bin/kondo", None);
    for existing in ["", "0 1 * * * backup\n", "a\n\nb\n", "x\n# kondo-auto old\ny", "a\n\n"] {
        let first = crontab_with(existing, &line);
        let second = crontab_with(&first, &line);
        assert_eq!(second, first, "crontab {:?}", existing);
        assert_eq!(first.matches("# kondo-auto").count(), 1);
    }
}

#[test]
fn uninstall_undoes_install() {
    let line = cron_line("0 * * * *", "/usr/bin/kondo", Some("/etc/k.yml"));
    for existing in ["0 1 * * * backup\n", "a\n\nb\n", "MAILTO=me\n* * * * * x\n"] {
        let installed = crontab_with(existing, &line);
        assert_eq!(crontab_without(&installed), existing);
    }
}
