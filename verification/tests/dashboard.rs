use deepscan::anomaly::{Anomaly, AnomalyKind};
use deepscan::report::{Bucket, DiskSpace, Finding, LargeFile, ScanReport, Severity};
use deepscan::tui::dashboard::{assemble_dashboard, DashAction, RowKind};
use deepscan::tui::keys::Key;

fn anomaly(name: &str, bytes: u64, kind: AnomalyKind) -> Anomaly {
    Anomaly {
        zone: "z".into(),
        name: name.into(),
        path: format!("/x/{name}"),
        bytes,
        kind,
        median_bytes: 1,
        ratio: None,
        siblings: 2,
        severity: Severity::Info,
    }
}

fn large(name: &str, bytes: u64) -> LargeFile {
    LargeFile {
        path: format!("/x/{name}"),
        bytes,
        modified_days: Some(5),
        accessed_days: None,
    }
}

fn empty_report() -> ScanReport {
    ScanReport {
        root: "/x".into(),
        disk: None,
        total_bytes: 0,
        children: vec![],
        tree: None,
        reclaimable_bytes: 0,
        buckets: vec![],
        findings: vec![],
    }
}

#[test]
fn assembles_only_nonempty_sections_and_splits_anomalies() {
    let report = empty_report();
    let anomalies = vec![
        anomaly("Slack", 20, AnomalyKind::AppData),
        anomaly("CocoaPods", 4, AnomalyKind::Cache),
    ];
    let largest = vec![large("big.bin", 99)];
    let d = assemble_dashboard("/x".into(), &report, &anomalies, &largest, 3);
    // App data, Caches, Biggest files: Reclaimable + Leaks empty, dropped.
    let titles: Vec<&str> = d.sections.iter().map(|s| s.title.as_str()).collect();
    assert!(titles.iter().any(|t| t.starts_with("App data")));
    assert!(titles.iter().any(|t| t.starts_with("Caches")));
    assert!(titles.contains(&"Biggest files"));
    assert!(!titles.contains(&"Reclaimable"));
    assert_eq!(d.nav.len(), 3, "three navigable rows");
    assert_eq!(d.snapshots, 3);
}

#[test]
fn navigation_clamps_and_reports_current() {
    let report = empty_report();
    let anomalies = vec![
        anomaly("a", 3, AnomalyKind::AppData),
        anomaly("b", 2, AnomalyKind::AppData),
    ];
    let mut d = assemble_dashboard("/x".into(), &report, &anomalies, &Vec::new(), 0);
    assert_eq!(d.current().map(|r| r.label.as_str()), Some("a"));
    d.move_up();
    assert_eq!(d.cursor, 0, "clamps at top");
    d.move_down();
    assert_eq!(d.current().map(|r| r.label.as_str()), Some("b"));
    d.move_down();
    assert_eq!(d.cursor, 1, "clamps at bottom");
    assert_eq!(d.current().map(|r| r.kind), Some(RowKind::Dir));
}

#[test]
fn full_dashboard_draws_every_section() {
    let mut report = empty_report();
    report.disk = Some(DiskSpace { path: "/x".into(), total: 4096, used: 2048, free: 1024 });
    report.buckets.push(Bucket {
        name: "npm cache".into(),
        category: "cache".into(),
        path: "/x/.npm".into(),
        bytes: 10,
        note: "n".into(),
        safe_auto: true,
    });
    report.buckets.push(Bucket {
        name: "Downloads".into(),
        category: "user".into(),
        path: "/x/Downloads".into(),
        bytes: 7,
        note: "n".into(),
        safe_auto: false,
    });
    report.findings.push(Finding {
        name: "leak".into(),
        description: String::new(),
        path: "/x/leak".into(),
        bytes: 5,
        baseline_bytes: 1,
        owner: None,
        severity: Severity::Critical,
        root_cause: None,
        prevention: None,
        safe_delete: String::new(),
        file_matches: None,
    });
    let anomalies = vec![anomaly("app", 3, AnomalyKind::AppData), anomaly("c", 2, AnomalyKind::Cache)];
    let mut d = assemble_dashboard("/x".into(), &report, &anomalies, &vec![large("f", 1)], 2);
    let (top, disk) = d.header();
    assert_eq!(top, " deepscan · /x");
    assert_eq!(disk, " 2.0 KB used of 4.0 KB  ·  1.0 KB free  ·  2 snapshot(s)");
    let (page, at) = d.lines();
    assert_eq!(
        page.lines,
        vec![
            " Reclaimable",
            "         10 B    safe  npm cache",
            "          7 B  review  Downloads",
            " App data — review before removing",
            "          3 B    info  app",
            " Caches — safe to clear",
            "          2 B   cache  c",
            " Biggest files",
            "          1 B      5d  /x/f",
            " Leak signatures",
            "          5 B    CRIT  leak",
        ]
    );
    assert_eq!(at, Some(1));
    // The highlight follows the cursor past the headers.
    let expected = [1usize, 2, 4, 6, 8, 10];
    for line in expected {
        let (page, at) = d.lines();
        assert_eq!(at, Some(line));
        let label = d.current().map(|r| r.label.clone()).unwrap();
        assert!(page.lines[line].ends_with(&label));
        d.move_down();
    }
}

#[test]
fn dashboard_keys_open_rows() {
    let anomalies = vec![anomaly("a", 3, AnomalyKind::AppData)];
    let mut d = assemble_dashboard("/x".into(), &empty_report(), &anomalies, &vec![large("f", 1)], 0);
    match d.on_key(Key::Enter) {
        DashAction::Explore(p) => assert_eq!(p, "/x/a"),
        other => panic!("unexpected {other:?}"),
    }
    assert!(matches!(d.on_key(Key::Char('j')), DashAction::Stay));
    match d.on_key(Key::Right) {
        DashAction::Reveal(p) => assert_eq!(p, "/x/f"),
        other => panic!("unexpected {other:?}"),
    }
    assert!(matches!(d.on_key(Key::Left), DashAction::Stay));
    assert!(matches!(d.on_key(Key::Char('q')), DashAction::Quit));
}

#[test]
fn an_empty_dashboard_has_no_row() {
    let mut d = assemble_dashboard("/x".into(), &empty_report(), &Vec::new(), &Vec::new(), 0);
    assert!(d.current().is_none());
    assert!(matches!(d.on_key(Key::Enter), DashAction::Stay));
    let (page, at) = d.lines();
    assert!(page.lines.is_empty());
    assert_eq!(at, None);
    assert_eq!(d.header().1, " 0 snapshot(s)");
}
