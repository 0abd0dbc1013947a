use kondo::config::{expand_tilde_with, join_paths, normalize_ext, Config, DuplicateAction};
use kondo::organize::{
    file_extension, moved_outcome, parse_dashify_output, plan_file, resolve_existing,
    size_conflict, unnamed_outcome, FilePlan, ListedFile, RunStep, plan_source, plan_dashify,
    settle_dashify, DashifyPlan, RenamedPath,
};
use kondo::pattern::{first_matching, matches_pattern};
use kondo::report::{Action, Report};
use kondo::strmap::StrMap;
use std::path::Path;

fn s(x: &str) -> String {
    x.to_string()
}

#[test]
fn test_move_file_no_conflict() {
    let dest = "/dest/photo.png";
    let outcome = moved_outcome(dest);
    assert_eq!(outcome.action, Action::Move);
    assert_eq!(outcome.destination, dest);
    assert!(outcome.reason.is_none());
}

#[test]
fn test_move_file_identical_skip() {
    let h = kondo::cache::sha256_hex(b"identical content");
    assert!(size_conflict("/dest/photo.png", 17, 17).is_none());
    let plan = resolve_existing("/dest/photo.png", "/dest", &h, &h, DuplicateAction::Skip, false);
    assert_eq!(plan.outcome.action, Action::Skip);
    assert!(!plan.remove_source);
    assert_eq!(plan.outcome.reason.as_deref(), Some("already exists at /dest"));
}

#[test]
fn test_move_file_identical_dedup() {
    let h = kondo::cache::sha256_hex(b"identical content");
    let plan = resolve_existing("/dest/photo.png", "/dest", &h, &h, DuplicateAction::Dedup, false);
    assert_eq!(plan.outcome.action, Action::Dedup);
    assert!(plan.remove_source);
    assert!(plan.outcome.reason.expect("reason").contains("source removed"));
}

#[test]
fn test_move_file_different_content_conflict() {
    let src = kondo::cache::sha256_hex(b"version 2");
    let dest = kondo::cache::sha256_hex(b"version 1");
    assert!(size_conflict("/dest/report.pdf", 9, 9).is_none());
    let plan =
        resolve_existing("/dest/report.pdf", "/dest", &src, &dest, DuplicateAction::Dedup, false);
    assert_eq!(plan.outcome.action, Action::Conflict);
    assert!(!plan.remove_source);
    assert!(plan.outcome.reason.expect("reason").contains("differs from"));
}

#[test]
fn test_move_file_different_size_conflict() {
    let outcome = size_conflict("/dest/doc.txt", 5, 24).expect("conflict");
    assert_eq!(outcome.action, Action::Conflict);
    let reason = outcome.reason.expect("reason");
    assert!(reason.contains("different size"));
    assert_eq!(reason, "differs from /dest/doc.txt (different size)");
}

#[test]
fn test_move_file_dry_run_dedup_no_delete() {
    let h = kondo::cache::sha256_hex(b"same content");
    let plan = resolve_existing("/dest/photo.png", "/dest", &h, &h, DuplicateAction::Dedup, true);
    assert_eq!(plan.outcome.action, Action::Dedup);
    assert!(!plan.remove_source);
}

#[test]
fn conflict_reason_names_destination() {
    let plan =
        resolve_existing("/d/a", "/d", &s("1"), &s("2"), DuplicateAction::Skip, false);
    assert_eq!(plan.outcome.reason.as_deref(), Some("differs from /d/a (different content)"));
    assert_eq!(plan.outcome.destination, "/d/a");
    let dedup = resolve_existing("/d/a", "/d", &s("1"), &s("1"), DuplicateAction::Dedup, false);
    assert_eq!(dedup.outcome.reason.as_deref(), Some("identical to /d/a, source removed"));
    let unnamed = unnamed_outcome("/d");
    assert_eq!(unnamed.action, Action::Skip);
    assert_eq!(unnamed.destination, "/d");
    assert_eq!(unnamed.reason.as_deref(), Some("no filename"));
}

#[test]
fn extensions_match_path_extension() {
    for name in ["a.png", "a.tar.gz", ".bashrc", ".a.b", "noext", "a.", "...", "x.PNG", ""] {
        let want = Path::new(name).extension().map(|e| e.to_string_lossy().to_string());
        assert_eq!(file_extension(name), want, "extension of {:?}", name);
    }
}

#[test]
fn joins_match_path_join() {
    for (base, rest) in [
        ("/home/u", "Downloads"),
        ("/home/u/", "Downloads"),
        ("/home/u", "/etc"),
        ("", "x"),
        ("/home/u", ""),
        ("rel", "a/b"),
    ] {
        let want = Path::new(base).join(rest).to_string_lossy().to_string();
        assert_eq!(join_paths(base, rest), want, "join {:?} {:?}", base, rest);
    }
}

#[test]
fn tilde_expansion() {
    assert_eq!(expand_tilde_with("~/Downloads", Some("/home/u")), "/home/u/Downloads");
    assert_eq!(expand_tilde_with("~", Some("/home/u")), "/home/u");
    assert_eq!(expand_tilde_with("~user/x", Some("/home/u")), "~user/x");
    assert_eq!(expand_tilde_with("/abs", Some("/home/u")), "/abs");
    assert_eq!(expand_tilde_with("~/Downloads", None), "~/Downloads");
}

#[test]
fn extensions_are_normalized() {
    assert_eq!(normalize_ext(".PNG"), "png");
    assert_eq!(normalize_ext("..Jpg"), "jpg");
    assert_eq!(normalize_ext("tar.GZ"), "tar.gz");
    assert_eq!(normalize_ext("\u{c9}X"), "\u{e9}x");
}

fn sample_config() -> Config {
    let mut rules = StrMap::new();
    rules.insert(s("~/Pictures"), vec![s(".png"), s("JPG")]);
    rules.insert(s("/docs"), vec![s("pdf"), s("png")]);
    Config {
        dashify: false,
        sources: vec![s("~/Downloads"), s("/tmp/in")],
        rules,
        on_duplicate: DuplicateAction::Skip,
        exclude: Vec::new(),
    }
}

#[test]
fn extension_map_routes_every_configured_extension() {
    let config = sample_config();
    let map = config.extension_map_with(Some("/home/u"));
    assert_eq!(map.len(), 3);
    assert_eq!(map.get("jpg").map(|d| d.as_str()), Some("/home/u/Pictures"));
    // A later rule that lists the same extension wins.
    assert_eq!(map.get("png").map(|d| d.as_str()), Some("/docs"));
    assert_eq!(map.get("pdf").map(|d| d.as_str()), Some("/docs"));
    assert_eq!(map.get(".png"), None);
}

#[test]
fn source_paths_expand_home() {
    let config = sample_config();
    assert_eq!(
        config.source_paths_with(Some("/home/u")),
        vec![s("/home/u/Downloads"), s("/tmp/in")]
    );
    assert_eq!(config.source_paths().len(), 2);
}

#[test]
fn default_config() {
    let config = Config::default();
    assert!(config.dashify);
    assert_eq!(config.sources, vec![s("~/Downloads")]);
    assert_eq!(config.rules.len(), 0);
    assert_eq!(config.on_duplicate, DuplicateAction::Skip);
    assert!(config.exclude.is_empty());
    assert_eq!(DuplicateAction::default(), DuplicateAction::Skip);
}

#[test]
fn files_are_planned_by_lower_cased_extension() {
    let map = sample_config().extension_map_with(Some("/home/u"));
    match plan_file(&map, "Photo.JPG") {
        FilePlan::MoveTo(d) => assert_eq!(d, "/home/u/Pictures"),
        _ => panic!("expected a destination"),
    }
    assert!(matches!(plan_file(&map, "archive.zip"), FilePlan::NoRule));
    assert!(matches!(plan_file(&map, "README"), FilePlan::NoExtension));
    assert!(matches!(plan_file(&map, ".pdf"), FilePlan::NoExtension));
}

#[test]
fn dashify_output_parsing() {
    assert_eq!(parse_dashify_output("My Photo.png -> my-photo.png\n"), Some(s("my-photo.png")));
    assert_eq!(parse_dashify_output("  a -> b -> c  "), Some(s("b -> c")));
    assert_eq!(parse_dashify_output(""), None);
    assert_eq!(parse_dashify_output("   \n"), None);
    assert_eq!(parse_dashify_output("nothing to do"), None);
    assert_eq!(parse_dashify_output("a ->  "), None);
    assert_eq!(parse_dashify_output("a -> "), None);
    assert_eq!(parse_dashify_output("x ->  y"), Some(s("y")));
}

#[test]
fn report_records() {
    let mut report = Report::default();
    report.record_missing_source(s("/nope"));
    report.record_unmatched(s("/in/a.zip"));
    report.record_dashify_failure(s("/in/b.png"), "boom");
    report.record_move(s("/in/c.png"), moved_outcome("/p/c.png"));
    let texts: Vec<String> = report.entries.iter().map(|e| e.display()).collect();
    assert_eq!(
        texts,
        vec![
            s("/nope (source directory not found)"),
            s("/in/a.zip (no matching rule)"),
            s("/in/b.png (dashify failed: boom)"),
            s("/in/c.png -> /p/c.png"),
        ]
    );
    assert_eq!(report.count(&Action::Skip), 2);
    assert_eq!(report.count(&Action::Error), 1);
    assert_eq!(report.count(&Action::Move), 1);
}

fn listed(name: &str, regular: bool) -> ListedFile {
    ListedFile { name: s(name), regular }
}

#[test]
fn missing_source_is_one_skip_step() {
    let map = sample_config().extension_map_with(Some("/home/u"));
    let steps = plan_source("/nowhere", None, &map, &Vec::new());
    assert_eq!(steps.len(), 1);
    assert!(matches!(&steps[0], RunStep::MissingSource(d) if d == "/nowhere"));
}

#[test]
fn listing_is_planned_in_order() {
    let map = sample_config().extension_map_with(Some("/home/u"));
    let files = vec![
        listed("a.png", true),
        listed("notes", true),
        listed("link.pdf", false),
        listed("b.zip", true),
        listed("C.JPG", true),
    ];
    let steps = plan_source("/in", Some(&files), &map, &Vec::new());
    assert_eq!(steps.len(), 3);
    assert!(matches!(&steps[0], RunStep::Move(0, d) if d == "/docs"));
    assert!(matches!(&steps[1], RunStep::Unmatched(3)));
    assert!(matches!(&steps[2], RunStep::Move(4, d) if d == "/home/u/Pictures"));
    assert!(plan_source("/in", Some(&Vec::new()), &map, &Vec::new()).is_empty());
}

#[test]
fn extension_without_collision_routes_to_its_rule() {
    let mut rules = StrMap::new();
    rules.insert(s("~/Pictures"), vec![s(".PNG"), s("jpg")]);
    rules.insert(s("/docs"), vec![s("pdf")]);
    let config = Config { rules, ..Config::default() };
    let map = config.extension_map_with(Some("/home/u"));
    assert_eq!(map.len(), 3);
    assert_eq!(map.get("png").map(|d| d.as_str()), Some("/home/u/Pictures"));
    assert_eq!(map.get("jpg").map(|d| d.as_str()), Some("/home/u/Pictures"));
    assert_eq!(map.get("pdf").map(|d| d.as_str()), Some("/docs"));
}

#[test]
fn exclude_patterns_match_names() {
    assert!(matches_pattern("*.part", "movie.mkv.part"));
    assert!(!matches_pattern("*.part", "movie.mkv"));
    assert!(matches_pattern(".~lock.*", ".~lock.report.odt#"));
    assert!(!matches_pattern(".~lock.*", "lock.odt"));
    assert!(matches_pattern("?.tmp", "a.tmp"));
    assert!(!matches_pattern("?.tmp", "ab.tmp"));
    assert!(matches_pattern("*", ""));
    assert!(matches_pattern("a*b*c", "aXXbYc"));
    assert!(!matches_pattern("a*b*c", "aXXbY"));
    assert!(!matches_pattern("", "a"));
    assert!(matches_pattern("", ""));
    let pats = vec![s("*.tmp"), s("*.part"), s("*")];
    assert_eq!(first_matching(&pats, "x.part"), Some(1));
    assert_eq!(first_matching(&pats[..2].to_vec(), "x.png"), None);
}

#[test]
fn excluded_files_are_left_alone() {
    let mut rules = StrMap::new();
    rules.insert(s("/downloads/partial"), vec![s("part")]);
    rules.insert(s("/docs"), vec![s("pdf")]);
    let config = Config { rules, ..Config::default() };
    let map = config.extension_map_with(Some("/home/u"));
    let exclude = vec![s("*.crdownload"), s("*.part"), s("README")];
    let files = vec![
        listed("a.part", true),
        listed("b.pdf", true),
        listed("README", true),
        listed("c.part", false),
    ];
    let steps = plan_source("/in", Some(&files), &map, &exclude);
    assert_eq!(steps.len(), 3);
    assert!(matches!(&steps[0], RunStep::Excluded(0, 1)));
    assert!(matches!(&steps[1], RunStep::Move(1, d) if d == "/docs"));
    assert!(matches!(&steps[2], RunStep::Excluded(2, 2)));
}

#[test]
fn dashify_decisions() {
    assert!(matches!(plan_dashify(None, false), DashifyPlan::Keep));
    assert!(matches!(plan_dashify(Some(""), false), DashifyPlan::Keep));
    assert!(matches!(plan_dashify(Some("My File.png -> my-file.png\n"), true), DashifyPlan::Keep));
    assert!(matches!(
        plan_dashify(Some("My File.png -> my-file.png\n"), false),
        DashifyPlan::Rename(n) if n == "my-file.png"
    ));
    assert_eq!(settle_dashify(false, false, true), RenamedPath::Original);
    assert_eq!(settle_dashify(true, true, false), RenamedPath::New);
    assert_eq!(settle_dashify(true, false, true), RenamedPath::Original);
    assert_eq!(settle_dashify(true, false, false), RenamedPath::Lost);
}

#[test]
fn excluded_and_failed_moves_are_recorded() {
    let mut report = Report::default();
    report.record_excluded(s("/in/a.part"), "*.part");
    report.record_move_failure(s("/in/b.png"), "permission denied");
    assert_eq!(report.entries.len(), 2);
    assert_eq!(report.entries[0].action, Action::Exclude);
    assert_eq!(report.entries[0].display(), "/in/a.part (matched *.part)");
    assert_eq!(report.entries[1].action, Action::Error);
    assert_eq!(report.entries[1].display(), "/in/b.png (permission denied)");
    assert_eq!(report.count(&Action::Skip), 0);
}

#[test]
fn exclude_patterns_with_sets() {
    assert!(matches_pattern("[abc].txt", "b.txt"));
    assert!(!matches_pattern("[abc].txt", "d.txt"));
    assert!(matches_pattern("[!abc]*", "zeta"));
    assert!(!matches_pattern("[!abc]*", "alpha"));
    assert!(matches_pattern("file[0-9].log", "file7.log"));
    assert!(!matches_pattern("file[0-9].log", "fileX.log"));
    assert!(matches_pattern("[]]", "]"));
    assert!(matches_pattern("[!]]", "x"));
    assert!(!matches_pattern("[!]]", "]"));
    assert!(matches_pattern("[a-]", "-"));
    assert!(matches_pattern("[*]", "*"));
    assert!(!matches_pattern("[*]", "x"));
    // A `[` that opens no set is an ordinary character.
    assert!(matches_pattern("a[b", "a[b"));
    assert!(matches_pattern("*.[tT][mM][pP]", "x.TmP"));
}
