use deepscan::anomaly::{Anomaly, AnomalyKind};
use deepscan::report::{ScanReport, Severity};
use deepscan::tui::dashboard;
use deepscan::tui::dashboard::assemble_dashboard;
use deepscan::tui::explorer;
use deepscan::tui::keys::Key;
use deepscan::tui::list;
use deepscan::tui::list::{ListConfig, ListSession};
use deepscan::tui::tree;
use deepscan::tui::widget::{Row, RowMeta, Sort};

#[test]
fn the_list_is_drawn_with_its_question() {
    let rows = vec![
        Row::new(2048, "a".into(), "/h/a".into(), RowMeta::Age(Some(3))),
        Row::new(1024, "b".into(), "/h/b".into(), RowMeta::Blank),
    ];
    let mut session = ListSession::new(rows, Sort::Size);
    let config = ListConfig { title: "t".into(), home: None };
    session.on_key(Key::Char(' '));
    let screen = list::draw(&session, &config);
    assert_eq!(screen.top.lines, vec![" t   [selected: 1 · 2.0 KB]"]);
    assert_eq!(
        screen.lines.lines,
        vec![
            " [x] ██████████████      2.0 KB      3d  a",
            " [ ] ███████·······      1.0 KB          b",
        ]
    );
    assert_eq!(screen.selected, Some(0));
    assert_eq!(screen.question, None);
    assert!(screen.footer.ends_with("q quit"));
    session.on_key(Key::Enter);
    let screen = list::draw(&session, &config);
    assert_eq!(
        screen.question.as_deref(),
        Some("Move 1 item(s) (2.0 KB) to the Trash?\n\n[y] confirm    [n] cancel")
    );
    let empty = ListSession::new(Vec::new(), Sort::Size);
    let screen = list::draw(&empty, &config);
    assert_eq!(screen.selected, None);
    assert!(screen.lines.lines.is_empty());
}

#[test]
fn the_tree_is_drawn_with_spinners() {
    let explorer = tree::Explorer::new(
        "/r".into(),
        &vec![
            tree::Listed { name: "d".into(), path: "/r/d".into(), kind: tree::ListedKind::Dir },
            tree::Listed { name: "f".into(), path: "/r/f".into(), kind: tree::ListedKind::File(512) },
        ],
        None,
    );
    let screen = tree::draw(&explorer, 0);
    assert_eq!(
        screen.top.lines,
        vec![" /r   512 B so far · sizing 1 folder(s)…   (2 items)", ""]
    );
    assert_eq!(
        screen.lines.lines,
        vec![
            format!(" {:<16}  {:>10}  d/", "⠋ sizing", "—"),
            format!(" {}       512 B  f", "█".repeat(16)),
        ]
    );
    assert_eq!(screen.selected, Some(0));
}

#[test]
fn the_level_explorer_is_drawn_while_it_computes() {
    let explorer = explorer::Explorer::new(
        "/r".into(),
        &vec![explorer::Child { name: "d".into(), path: "/r/d".into() }],
    );
    let screen = explorer::draw(&explorer, 4, 2048);
    assert_eq!(screen.top.lines, vec![" /r   computing… 2.0 KB scanned · 4 dirs"]);
    assert_eq!(screen.lines.lines, vec![format!(" {}           —  d", " ".repeat(16))]);
    assert_eq!(screen.footer, explorer::footer_line(true));
    assert_eq!(explorer::bar_scale(&explorer.stack[0].items), 1);
    let known = vec![
        explorer::Entry { name: "a".into(), path: "/r/a".into(), bytes: Some(7) },
        explorer::Entry { name: "b".into(), path: "/r/b".into(), bytes: None },
    ];
    assert_eq!(explorer::bar_scale(&known), 7);
}

#[test]
fn the_dashboard_is_drawn_with_its_cursor() {
    let report = ScanReport {
        root: "/x".into(),
        disk: None,
        total_bytes: 0,
        children: Vec::new(),
        tree: None,
        reclaimable_bytes: 0,
        buckets: Vec::new(),
        findings: Vec::new(),
    };
    let found = vec![Anomaly {
        zone: "z".into(),
        name: "app".into(),
        path: "/x/app".into(),
        bytes: 3,
        kind: AnomalyKind::AppData,
        median_bytes: 1,
        ratio: None,
        siblings: 2,
        severity: Severity::Warn,
    }];
    let screen = dashboard::draw(&assemble_dashboard("/x".into(), &report, &found, &Vec::new(), 1));
    assert_eq!(screen.top.lines, vec![" deepscan · /x", " 1 snapshot(s)"]);
    assert_eq!(
        screen.lines.lines,
        vec![" App data — review before removing", "          3 B    WARN  app"]
    );
    assert_eq!(screen.selected, Some(1));
    assert_eq!(screen.footer, " ↑↓ move   → / enter  explore folder · reveal file   q quit");
    let empty = dashboard::draw(&assemble_dashboard("/x".into(), &report, &Vec::new(), &Vec::new(), 0));
    assert_eq!(empty.selected, None);
}
