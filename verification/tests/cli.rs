use deepscan::anomaly::{Anomaly, AnomalyKind};
use deepscan::cli::{
    analyze_custom, anomalies_exit_code, clean_rows, colour_enabled, contains_any, dupe_rows,
    dupes_title, exit_code_for, filter_plan, home, interactive, is_yes, large_rows, large_title,
    next_step, nothing_to_uninstall, output, pick_files, progress_line, scan_depth,
    scan_exit_code, uninstall_rows, uninstall_title, Output, Request, Step,
};
use deepscan::engine::{ReclaimOutcome, ReclaimPlan, ReclaimResult, ReclaimTarget};
use deepscan::render::{
    nothing_safe, palette, reclaim_question, render_anomalies, render_dupes, render_large,
    render_plan, render_reclaimed, render_removed, render_scan, render_space, render_uninstall,
    report_trash, uninstall_hint, uninstall_question, Palette,
};
use deepscan::report::{
    Bucket, ChildSize, Confidence, DiskSpace, DuplicateGroup, Finding, LargeFile, Leftover,
    ScanReport, Severity, SpaceReport, TreeNode, UninstallOutcome, UninstallPlan,
};
use deepscan::scan::{Entry, Node};
use deepscan::tui::action::{TrashFailure, TrashOutcome};
use deepscan::tui::widget::RowMeta;

const MB: u64 = 1024 * 1024;

fn plain() -> Palette {
    palette(false)
}

fn target(name: &str, bytes: u64) -> ReclaimTarget {
    ReclaimTarget { name: name.into(), path: format!("/p/{name}"), bytes, note: format!("note {name}"), auto: true }
}

fn anomaly(name: &str, bytes: u64, kind: AnomalyKind, severity: Severity) -> Anomaly {
    Anomaly {
        zone: "z".into(),
        name: name.into(),
        path: format!("/x/{name}"),
        bytes,
        kind,
        median_bytes: 1,
        ratio: None,
        siblings: 2,
        severity,
    }
}

#[test]
fn exit_codes_tell_the_worst() {
    assert_eq!(exit_code_for(None), 0);
    assert_eq!(exit_code_for(Some(Severity::Info)), 0);
    assert_eq!(exit_code_for(Some(Severity::Warn)), 1);
    assert_eq!(exit_code_for(Some(Severity::Critical)), 2);
    let found = vec![
        anomaly("a", 1, AnomalyKind::AppData, Severity::Warn),
        anomaly("b", 1, AnomalyKind::AppData, Severity::Info),
    ];
    assert_eq!(anomalies_exit_code(true, &found), 1);
    assert_eq!(anomalies_exit_code(false, &found), 0);
    assert_eq!(scan_exit_code(true, &vec![finding(Severity::Critical)]), 2);
    assert_eq!(scan_exit_code(true, &Vec::new()), 0);
}

#[test]
fn modes_of_output() {
    assert!(interactive(false, false, true));
    assert!(!interactive(true, false, true));
    assert!(!interactive(false, true, true));
    assert!(!interactive(false, false, false));
    assert_eq!(output(false, false, true, false), Output::Interactive);
    assert_eq!(output(false, false, true, true), Output::Plain);
    assert_eq!(output(true, false, true, false), Output::Json);
    assert_eq!(output(false, true, true, false), Output::Plain);
    assert!(colour_enabled(true, false));
    assert!(!colour_enabled(true, true));
    assert!(!colour_enabled(false, false));
    assert_eq!(home(None), "/");
    assert_eq!(home(Some("/h".into())), "/h");
}

fn request(apply: bool, yes: bool) -> Request {
    Request { apply, yes, json: false, plain: false, output_terminal: true, input_terminal: true }
}

#[test]
fn deletion_needs_apply_and_a_yes() {
    assert_eq!(next_step(&request(false, true), false, false), Step::Interactive);
    assert_eq!(next_step(&request(false, true), true, false), Step::DryRun);
    assert_eq!(next_step(&Request { json: true, ..request(false, true) }, false, false), Step::Json);
    assert_eq!(next_step(&request(true, true), false, false), Step::Go);
    assert_eq!(next_step(&request(true, false), false, false), Step::Ask);
    assert_eq!(
        next_step(&Request { input_terminal: false, ..request(true, false) }, false, false),
        Step::Refuse
    );
    assert_eq!(next_step(&request(true, true), false, true), Step::Nothing);
    assert!(is_yes(" yes\n"));
    assert!(is_yes("y"));
    assert!(is_yes("Y"));
    assert!(!is_yes("YES"));
    assert!(!is_yes(""));
}

#[test]
fn plans_are_filtered_by_name() {
    let plan = ReclaimPlan {
        auto_targets: vec![target("npm cache", 3), target("Cargo registry", 4), target("Go modules", 8)],
        manual_targets: vec![target("pnpm store", 9), target("Downloads", 1)],
        auto_bytes: 15,
    };
    let kept = filter_plan(&plan, &vec!["NPM".to_string(), "cargo".to_string()]);
    let names: Vec<&str> = kept.auto_targets.iter().map(|t| t.name.as_str()).collect();
    assert_eq!(names, vec!["npm cache", "Cargo registry"]);
    assert_eq!(kept.auto_bytes, 7);
    assert_eq!(kept.manual_targets.len(), 1);
    assert_eq!(kept.manual_targets[0].name, "pnpm store");
    assert!(filter_plan(&plan, &Vec::new()).auto_targets.is_empty());
    assert!(contains_any("abc", &vec!["x".into(), "bc".into()]));
    assert!(!contains_any("abc", &vec!["x".into()]));
}

#[test]
fn depth_is_bounded() {
    assert_eq!(scan_depth(false, 0), 0);
    assert_eq!(scan_depth(true, 0), 1);
    assert_eq!(scan_depth(true, 3), 3);
    assert_eq!(scan_depth(false, 99), 6);
}

#[test]
fn progress_is_one_line() {
    assert_eq!(progress_line(11, "scanning", 2048, 5), "\r\u{1b}[2K⠙ scanning… 2.0 KB scanned · 5 dirs");
}

fn large(path: &str, bytes: u64, days: Option<u64>) -> LargeFile {
    LargeFile { path: path.into(), bytes, modified_days: days, accessed_days: None }
}

#[test]
fn old_files_are_picked() {
    let files = || vec![large("/a", 9, Some(100)), large("/b", 8, None), large("/c", 7, Some(90)), large("/d", 6, Some(89))];
    let picked = pick_files(files(), Some(90), 12);
    let names: Vec<&str> = picked.iter().map(|f| f.path.as_str()).collect();
    assert_eq!(names, vec!["/a", "/c"]);
    assert_eq!(pick_files(files(), None, 2).len(), 2);
    assert_eq!(pick_files(files(), Some(1), 0).len(), 0);
    let rows = large_rows(&picked);
    assert_eq!(rows[0].label, "/a");
    assert!(matches!(rows[0].meta, RowMeta::Age(Some(100))));
    assert_eq!(large_title(Some(90)), "deepscan large · not modified in 90+ days");
    assert_eq!(large_title(None), "deepscan large");
}

#[test]
fn large_report() {
    let page = render_large(&plain(), &vec![large("/a", 2048, Some(7)), large("/b", 1, None)], Some(5));
    assert_eq!(
        page.lines,
        vec![
            "deepscan large · largest files not modified in 5+ days",
            "       2.0 KB     7d old  /a",
            "          1 B      ? old  /b",
        ]
    );
    assert_eq!(
        render_large(&plain(), &Vec::new(), None).lines,
        vec!["deepscan large · largest files", "  nothing above the size threshold"]
    );
    let coloured = render_large(&palette(true), &Vec::new(), None);
    assert_eq!(
        coloured.lines[0],
        "\u{1b}[1mdeepscan large\u{1b}[0m \u{1b}[2m· largest files\u{1b}[0m"
    );
}

fn group(bytes: u64, paths: &[&str]) -> DuplicateGroup {
    DuplicateGroup {
        bytes,
        wasted: bytes * (paths.len() as u64 - 1),
        paths: paths.iter().map(|p| p.to_string()).collect(),
    }
}

#[test]
fn dupes_report() {
    let groups = vec![group(2048, &["/a", "/b", "/c"]), group(10, &["/d", "/e"])];
    assert_eq!(
        render_dupes(&plain(), &groups, 1).lines,
        vec![
            "deepscan dupes · 4.0 KB reclaimable across 2 duplicate sets",
            "       4.0 KB wasted  (3 copies × 2.0 KB)",
            "      /a",
            "      /b",
            "      /c",
            "  … 1 more set(s)",
        ]
    );
    assert_eq!(
        render_dupes(&plain(), &Vec::new(), 5).lines,
        vec!["deepscan dupes · 0 B reclaimable across 0 duplicate sets", "  no exact duplicates found"]
    );
    let one = vec![group(10, &["/d", "/e"])];
    assert_eq!(render_dupes(&plain(), &one, 5).lines[0], "deepscan dupes · 10 B reclaimable across 1 duplicate set");
    assert_eq!(dupes_title(&groups), "deepscan dupes · 4.0 KB reclaimable");
    let rows = dupe_rows(&groups, 1);
    assert_eq!(rows.len(), 3);
    assert!(rows.iter().all(|r| r.group == Some(0) && !r.selected));
    assert!(matches!(&rows[2].meta, RowMeta::Tag(t) if t == "×3"));
    assert_eq!(dupe_rows(&groups, 9).len(), 5);
}

fn uninstall_plan() -> UninstallPlan {
    UninstallPlan {
        app_name: "Docker".into(),
        bundle_id: Some("com.docker".into()),
        app_path: Some("/Applications/Docker.app".into()),
        app_bytes: 2048,
        leftovers: vec![
            Leftover { path: "/l/a".into(), bytes: 1024, confidence: Confidence::High, location: "Caches".into() },
            Leftover { path: "/l/b".into(), bytes: 1, confidence: Confidence::Medium, location: "Logs".into() },
        ],
        total_bytes: 3073,
    }
}

#[test]
fn uninstall_report() {
    let plan = uninstall_plan();
    assert_eq!(
        render_uninstall(&plain(), &plan).lines,
        vec![
            "deepscan uninstall · Docker",
            "  bundle id: com.docker",
            "       2.0 KB  app     /Applications/Docker.app",
            "       1.0 KB  [high] Caches  /l/a",
            "          1 B  [med?] Logs  /l/b",
            "\n  total: 3.0 KB",
        ]
    );
    let rows = uninstall_rows(&plan);
    assert_eq!(rows.len(), 3);
    assert!(rows.iter().all(|r| r.selected));
    assert!(matches!(&rows[0].meta, RowMeta::Confidence(t) if t == "app"));
    assert!(matches!(&rows[2].meta, RowMeta::Confidence(t) if t == "med?"));
    assert_eq!(uninstall_title(&plan), "deepscan uninstall · Docker");
    assert_eq!(uninstall_question(&plan), "\nMove Docker (3.0 KB) to the Trash? [y/N] ");
    assert_eq!(
        uninstall_hint(&plain()),
        "\n  --apply moves all of the above to the Trash (recoverable)."
    );
    assert!(!nothing_to_uninstall(&plan));
    let bare = UninstallPlan {
        app_name: "x".into(),
        bundle_id: None,
        app_path: None,
        app_bytes: 0,
        leftovers: Vec::new(),
        total_bytes: 0,
    };
    assert!(nothing_to_uninstall(&bare));
    assert_eq!(
        render_uninstall(&plain(), &bare).lines,
        vec![
            "deepscan uninstall · x",
            "  (app bundle not found — showing matched leftovers only)",
            "  no leftover files found",
            "\n  total: 0 B",
        ]
    );
    let outcomes = vec![
        UninstallOutcome { path: "/a".into(), bytes: 2048, ok: true, error: None },
        UninstallOutcome { path: "/b".into(), bytes: 1, ok: false, error: Some("busy".into()) },
        UninstallOutcome { path: "/c".into(), bytes: 1, ok: false, error: None },
    ];
    assert_eq!(
        render_removed(&plain(), &outcomes).lines,
        vec![
            "  trashed       2.0 KB  /a",
            "  skip             1 B  /b (busy)",
            "  skip             1 B  /c (failed)",
            "\n  Moved 2.0 KB to the Trash.",
        ]
    );
}

#[test]
fn space_report_lines() {
    let rep = SpaceReport {
        disk: Some(DiskSpace { path: "/".into(), total: 4096, used: 1024, free: 2048 }),
        snapshots: vec!["com.apple.a".into()],
        reclaim_snapshots: Some("cmd".into()),
    };
    let lines = render_space(&plain(), "/", &rep).lines;
    assert_eq!(
        lines[..8],
        [
            "deepscan space · /",
            "       4.0 KB  capacity",
            "       1.0 KB  used  (25%)",
            "       2.0 KB  free",
            "",
            "  Local snapshots: 1 (macOS does not expose per-snapshot sizes)",
            "    com.apple.a",
            "  reclaim:  cmd",
        ]
    );
    assert_eq!(lines.len(), 12);
    let none = SpaceReport { disk: None, snapshots: Vec::new(), reclaim_snapshots: None };
    let lines = render_space(&plain(), "/", &none).lines;
    assert_eq!(lines[1], "  (disk capacity unavailable on this platform)");
    assert_eq!(lines[3], "  no local APFS snapshots");
}

#[test]
fn anomalies_report() {
    let found = vec![
        anomaly("app", 3 * 1024 * MB, AnomalyKind::AppData, Severity::Warn),
        anomaly("cache", 2048, AnomalyKind::Cache, Severity::Info),
        anomaly("other", 1024, AnomalyKind::Cache, Severity::Info),
    ];
    assert_eq!(
        render_anomalies(&plain(), &found).lines,
        vec![
            "deepscan anomalies · biggest same-class folders — app data to review vs caches you can clear",
            "\nApp data — real state; review what's inside before removing",
            "  [WARN]    3.0 GB  app  in z",
            "      /x/app",
            "\nCaches — safe to clear, regenerate on next use (3.0 KB total · deepscan reclaim)",
            "     2.0 KB  cache  in z",
            "     1.0 KB  other  in z",
        ]
    );
    let none = render_anomalies(&plain(), &Vec::new()).lines;
    assert_eq!(none[1], "  nothing notably large in the scanned zones");
    assert_eq!(render_anomalies(&plain(), &vec![anomaly("c", 1, AnomalyKind::Cache, Severity::Info)]).lines.len(), 3);
}

#[test]
fn custom_directories_are_ranked() {
    let d = |name: &str, len: u64| Entry {
        name: name.into(),
        node: Node::Dir(vec![Entry { name: "f".into(), node: Node::File(len) }]),
    };
    let entries = vec![d("a", 0), d("b", 0), d("c", 0), d("m", 100 * MB), d("n", 300 * MB), d("s", 99 * MB), d("z", 0)];
    let found = analyze_custom("/here", &entries, &None);
    let names: Vec<&str> = found.iter().map(|a| a.name.as_str()).collect();
    assert_eq!(names, vec!["n", "m"]);
    assert_eq!(found[0].zone, "custom");
    assert_eq!(found[0].ratio.is_none(), true);
}

fn finding(severity: Severity) -> Finding {
    Finding {
        name: "leak".into(),
        description: String::new(),
        path: "/l".into(),
        bytes: 2048,
        baseline_bytes: 1024,
        owner: Some("o".into()),
        severity,
        root_cause: Some("c".into()),
        prevention: Some("p".into()),
        safe_delete: "rm".into(),
        file_matches: Some(3),
    }
}

fn bucket(name: &str, bytes: u64, safe_auto: bool) -> Bucket {
    Bucket {
        name: name.into(),
        category: "c".into(),
        path: format!("/b/{name}"),
        bytes,
        note: format!("n {name}"),
        safe_auto,
    }
}

fn empty_report() -> ScanReport {
    ScanReport {
        root: "/r".into(),
        disk: None,
        total_bytes: 0,
        children: Vec::new(),
        tree: None,
        reclaimable_bytes: 0,
        buckets: Vec::new(),
        findings: Vec::new(),
    }
}

#[test]
fn scan_report_of_nothing() {
    assert_eq!(
        render_scan(&plain(), &empty_report()).lines,
        vec![
            "deepscan · scanning /r",
            "summary: nothing reclaimable in known locations · 0 leak signatures",
            "\nTip: add --tree (or --depth N) to see where all your space went — it walks the whole tree, so it's slower.",
            "\nLeak signatures",
            "  no anomalies above baseline — clean",
        ]
    );
}

#[test]
fn scan_report_in_full() {
    let mut rep = empty_report();
    rep.disk = Some(DiskSpace { path: "/".into(), total: 4096, used: 2048, free: 1024 });
    rep.total_bytes = 3;
    rep.children = vec![ChildSize { name: "kid".into(), path: "/r/kid".into(), bytes: 3 }];
    rep.buckets = vec![bucket("npm", 2048, true), bucket("Downloads", 1024, false)];
    rep.reclaimable_bytes = 3072;
    rep.findings = vec![finding(Severity::Critical)];
    assert_eq!(
        render_scan(&plain(), &rep).lines,
        vec![
            "deepscan · scanning /r",
            "summary: 2.0 KB safe to reclaim · 1.0 KB to review · 1 leak signature (1 critical)",
            "disk: 2.0 KB used of 4.0 KB · 1.0 KB free (50%)",
            "\nWhere the space is (total 3 B)",
            "          3 B  kid",
            "\nReclaimable buckets (2.0 KB safe · 1.0 KB review across 2 locations)",
            "       2.0 KB  [safe]   npm — n npm",
            "       1.0 KB  [review] Downloads — n Downloads",
            "\nLeak signatures",
            "  ⚠ [CRIT] leak 2.0 KB (baseline 1.0 KB)",
            "      owner:    o",
            "      path:     /l",
            "      matches:  3 files",
            "      cause:    c",
            "      prevent:  p",
            "      reclaim:  rm",
        ]
    );
    rep.buckets.pop();
    rep.reclaimable_bytes = 2048;
    assert!(render_scan(&plain(), &rep).lines[1].starts_with("summary: 2.0 KB safe to reclaim · 1 leak"));
}

#[test]
fn printed_trees_are_pruned() {
    let leaf = |i: u64| TreeNode { name: format!("n{i}"), bytes: 60 * MB + i, children: Vec::new() };
    let mut rep = empty_report();
    rep.total_bytes = 100 * MB;
    rep.tree = Some(TreeNode {
        name: "/r".into(),
        bytes: 100 * MB,
        children: vec![
            TreeNode { name: "big".into(), bytes: 900 * MB, children: (0..14).map(leaf).collect() },
            TreeNode { name: "tiny".into(), bytes: 50 * MB - 1, children: Vec::new() },
        ],
    });
    let lines = render_scan(&plain(), &rep).lines;
    assert_eq!(lines[2], "\nWhere the space is (total 100.0 MB)");
    assert_eq!(lines[3], "     900.0 MB    big");
    assert_eq!(lines[4], "      60.0 MB      n0");
    assert_eq!(lines[15], "      60.0 MB      n11");
    assert_eq!(lines[16], "                   … 2 more");
    assert_eq!(lines[17], "\nLeak signatures");
}

#[test]
fn plan_report() {
    let plan = ReclaimPlan {
        auto_targets: vec![target("npm", 2048)],
        manual_targets: vec![target("Downloads", 1)],
        auto_bytes: 2048,
    };
    assert_eq!(
        render_plan(&plain(), &plan, true).lines,
        vec![
            "deepscan clean · dry run (nothing deleted)",
            "\nSafe to reclaim (2.0 KB across 1 targets)",
            "       2.0 KB  npm  — note npm",
            "\nManual — review and handle yourself",
            "          1 B  Downloads  — note Downloads",
            "\nRun deepscan reclaim --apply to free the 2.0 KB of safe targets.",
        ]
    );
    assert_eq!(render_plan(&plain(), &plan, false).lines.len(), 5);
    let none = ReclaimPlan { auto_targets: Vec::new(), manual_targets: Vec::new(), auto_bytes: 0 };
    assert_eq!(render_plan(&plain(), &none, true).lines[1], "\nNothing safe to reclaim automatically.");
    let rows = clean_rows(&plan);
    assert!(matches!(&rows[0].meta, RowMeta::Tag(t) if t == "safe"));
    assert!(matches!(&rows[1].meta, RowMeta::Tag(t) if t == "review"));
    assert_eq!(rows[1].label, "Downloads");
    assert_eq!(reclaim_question(2048), "\nDelete 2.0 KB of regenerable caches? [y/N] ");
    assert_eq!(nothing_safe(&plain()), "Nothing safe to reclaim.");
    let result = ReclaimResult {
        deleted: vec![
            ReclaimOutcome { name: "npm".into(), path: "/p".into(), bytes: 2048, ok: true, error: None },
            ReclaimOutcome { name: "go".into(), path: "/q".into(), bytes: 1, ok: false, error: Some("busy".into()) },
        ],
        freed_bytes: 2048,
    };
    assert_eq!(
        render_reclaimed(&plain(), &result).lines,
        vec![
            "\ndeepscan clean · applying",
            "  freed       2.0 KB  npm",
            "  skip           1 B  go (busy)",
            "\nReclaimed 2.0 KB",
        ]
    );
}

#[test]
fn trash_is_reported() {
    let outcome = TrashOutcome {
        freed_bytes: 2048,
        failures: vec![TrashFailure { path: "/a".into(), error: "busy".into() }],
    };
    let (said, failed) = report_trash(&outcome);
    assert_eq!(said.lines, vec!["Moved 2.0 KB to the Trash."]);
    assert_eq!(failed.lines, vec!["skip  /a  (busy)"]);
    let (said, failed) = report_trash(&TrashOutcome::new());
    assert!(said.lines.is_empty());
    assert!(failed.lines.is_empty());
}
