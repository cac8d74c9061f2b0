use std::cell::RefCell;

use deepscan::anomaly::{Anomaly, AnomalyKind};
use deepscan::cli::{
    chosen_plan, finish_clean, finish_uninstall, run_anomalies, run_clean, run_dupes, run_large,
    run_scan, run_space, run_uninstall, shown_groups, Act, Request,
};
use deepscan::engine::{ReclaimPlan, ReclaimTarget};
use deepscan::render::{
    palette, render_anomalies, render_dupes, render_large, render_plan, render_reclaimed,
    render_removed, render_scan, render_space, render_uninstall,
};
use deepscan::report::{
    Confidence, DuplicateGroup, Finding, LargeFile, Leftover, ScanReport, Severity, SpaceReport,
    UninstallPlan,
};

fn request(apply: bool, yes: bool) -> Request {
    Request { apply, yes, json: false, plain: false, output_terminal: true, input_terminal: true }
}

fn large(path: &str, bytes: u64, days: Option<u64>) -> LargeFile {
    LargeFile { path: path.into(), bytes, modified_days: days, accessed_days: None }
}

#[test]
fn large_browses_prints_or_speaks_to_machines() {
    let p = palette(false);
    let found = || vec![large("/a", 9, Some(100)), large("/b", 8, Some(1)), large("/c", 7, Some(90))];
    let (files, outcome) = run_large(&p, found(), Some(90), 1, false, false, true);
    assert_eq!(files.len(), 1);
    assert!(outcome.said.lines.is_empty());
    match outcome.act {
        Act::Browse(rows, title) => {
            assert_eq!(rows.len(), 1);
            assert_eq!(rows[0].path, "/a");
            assert_eq!(title, "deepscan large · not modified in 90+ days");
        }
        other => panic!("unexpected {other:?}"),
    }
    let (files, outcome) = run_large(&p, found(), None, 2, true, false, true);
    assert_eq!(files.len(), 2);
    assert!(matches!(outcome.act, Act::Json));
    let (files, outcome) = run_large(&p, found(), None, 12, false, true, true);
    assert!(matches!(outcome.act, Act::Done));
    assert_eq!(outcome.said.lines, render_large(&p, &files, None).lines);
    // Nothing left to browse: the empty report is printed, even on a terminal.
    let (files, outcome) = run_large(&p, found(), Some(1000), 12, false, false, true);
    assert!(files.is_empty());
    assert!(matches!(outcome.act, Act::Done));
    assert_eq!(outcome.said.lines[1], "  nothing above the size threshold");
}

#[test]
fn dupes_browse_prints_or_speaks_to_machines() {
    let p = palette(false);
    let groups = vec![
        DuplicateGroup { bytes: 1024, wasted: 1024, paths: vec!["/a".into(), "/b".into()] },
        DuplicateGroup { bytes: 10, wasted: 10, paths: vec!["/c".into(), "/d".into()] },
    ];
    match run_dupes(&p, &groups, 1, false, false, true).act {
        Act::Browse(rows, title) => {
            assert_eq!(rows.len(), 2);
            assert!(rows.iter().all(|r| r.group == Some(0) && !r.selected));
            assert_eq!(title, "deepscan dupes · 1.0 KB reclaimable");
        }
        other => panic!("unexpected {other:?}"),
    }
    assert!(matches!(run_dupes(&p, &groups, 1, true, false, true).act, Act::Json));
    let outcome = run_dupes(&p, &groups, 1, false, false, false);
    assert!(matches!(outcome.act, Act::Done));
    assert_eq!(outcome.said.lines, render_dupes(&p, &groups, 1).lines);
    assert_eq!(outcome.said.lines.last().unwrap(), "  … 1 more set(s)");
}

fn anomaly(severity: Severity) -> Anomaly {
    Anomaly {
        zone: "z".into(),
        name: "n".into(),
        path: "/x/n".into(),
        bytes: 5,
        kind: AnomalyKind::AppData,
        median_bytes: 1,
        ratio: None,
        siblings: 2,
        severity,
    }
}

#[test]
fn anomalies_give_their_exit_code() {
    let p = palette(false);
    let found = vec![anomaly(Severity::Warn), anomaly(Severity::Info)];
    let (code, outcome) = run_anomalies(&p, &found, false, true);
    assert_eq!(code, 1);
    assert!(matches!(outcome.act, Act::Done));
    assert_eq!(outcome.said.lines, render_anomalies(&p, &found).lines);
    let (code, outcome) = run_anomalies(&p, &found, true, false);
    assert_eq!(code, 0);
    assert!(matches!(outcome.act, Act::Json));
    assert!(outcome.said.lines.is_empty());
}

fn empty_scan() -> ScanReport {
    ScanReport {
        root: "/x".into(),
        disk: None,
        total_bytes: 0,
        children: Vec::new(),
        tree: None,
        reclaimable_bytes: 0,
        buckets: Vec::new(),
        findings: Vec::new(),
    }
}

#[test]
fn scans_give_their_exit_code() {
    let p = palette(false);
    let mut rep = empty_scan();
    let (code, outcome) = run_scan(&p, &rep, false, true);
    assert_eq!(code, 0);
    assert_eq!(outcome.said.lines, render_scan(&p, &rep).lines);
    rep.findings.push(Finding {
        name: "leak".into(),
        description: String::new(),
        path: "/x/leak".into(),
        bytes: 5,
        baseline_bytes: 1,
        owner: None,
        severity: Severity::Critical,
        root_cause: None,
        prevention: None,
        safe_delete: String::new(),
        file_matches: None,
    });
    let (code, outcome) = run_scan(&p, &rep, true, true);
    assert_eq!(code, 2);
    assert!(matches!(outcome.act, Act::Json));
    assert_eq!(run_scan(&p, &rep, true, false).0, 0);
}

#[test]
fn space_is_printed_or_spoken() {
    let p = palette(false);
    let rep = SpaceReport { disk: None, snapshots: Vec::new(), reclaim_snapshots: None };
    let outcome = run_space(&p, "/x", &rep, false);
    assert_eq!(outcome.said.lines, render_space(&p, "/x", &rep).lines);
    assert_eq!(outcome.said.lines[0], "deepscan space · /x");
    assert!(matches!(run_space(&p, "/x", &rep, true).act, Act::Json));
}

fn target(name: &str, bytes: u64) -> ReclaimTarget {
    ReclaimTarget { name: name.into(), path: format!("/p/{name}"), bytes, note: "n".into(), auto: true }
}

#[test]
fn clean_deletes_only_after_a_yes() {
    let p = palette(false);
    let plan = ReclaimPlan {
        auto_targets: vec![target("a", 2048)],
        manual_targets: vec![target("m", 1)],
        auto_bytes: 2048,
    };
    match run_clean(&p, &plan, &request(false, true)).act {
        Act::Browse(rows, title) => {
            assert_eq!(rows.len(), 2);
            assert_eq!(title, "deepscan clean · caches");
        }
        other => panic!("unexpected {other:?}"),
    }
    let dry = run_clean(&p, &plan, &Request { plain: true, ..request(false, true) });
    assert!(matches!(dry.act, Act::Done));
    assert_eq!(dry.said.lines, render_plan(&p, &plan, true).lines);
    assert!(matches!(
        run_clean(&p, &plan, &Request { json: true, ..request(false, true) }).act,
        Act::Json
    ));
    let asked = run_clean(&p, &plan, &request(true, false));
    assert_eq!(asked.said.lines, render_plan(&p, &plan, false).lines);
    match asked.act {
        Act::Ask(q) => assert_eq!(q, "\nDelete 2.0 KB of regenerable caches? [y/N] "),
        other => panic!("unexpected {other:?}"),
    }
    match run_clean(&p, &plan, &Request { input_terminal: false, ..request(true, false) }).act {
        Act::Fail(m) => {
            assert_eq!(m, "refusing to delete without confirmation — re-run with --apply --yes")
        }
        other => panic!("unexpected {other:?}"),
    }
    assert!(matches!(run_clean(&p, &plan, &request(true, true)).act, Act::Go));
    let none = ReclaimPlan { auto_targets: Vec::new(), manual_targets: Vec::new(), auto_bytes: 0 };
    let outcome = run_clean(&p, &none, &request(true, true));
    assert!(matches!(outcome.act, Act::Done));
    assert_eq!(outcome.said.lines, vec!["Nothing safe to reclaim."]);
    let outcome = run_clean(&p, &none, &Request { json: true, ..request(true, true) });
    assert!(outcome.said.lines.is_empty());
}

#[test]
fn uninstall_shows_before_it_moves() {
    let p = palette(false);
    match run_uninstall(&p, &None, &request(true, true)).act {
        Act::Fail(m) => {
            assert_eq!(m, "app not found — pass the exact name or a path to the .app bundle")
        }
        other => panic!("unexpected {other:?}"),
    }
    let plan = UninstallPlan {
        app_name: "Docker".into(),
        bundle_id: Some("com.docker".into()),
        app_path: Some("/Applications/Docker.app".into()),
        app_bytes: 1024,
        leftovers: vec![Leftover {
            path: "/Users/t/Library/Caches/com.docker".into(),
            bytes: 1024,
            confidence: Confidence::High,
            location: "Caches".into(),
        }],
        total_bytes: 2048,
    };
    let shown = render_uninstall(&p, &plan).lines;
    let plan = Some(plan);
    match run_uninstall(&p, &plan, &request(false, false)).act {
        Act::Browse(rows, title) => {
            assert_eq!(rows.len(), 2);
            assert!(rows.iter().all(|r| r.selected));
            assert_eq!(title, "deepscan uninstall · Docker");
        }
        other => panic!("unexpected {other:?}"),
    }
    let dry = run_uninstall(&p, &plan, &Request { output_terminal: false, ..request(false, false) });
    assert_eq!(dry.said.lines.len(), shown.len() + 1);
    assert_eq!(
        dry.said.lines.last().unwrap(),
        "\n  --apply moves all of the above to the Trash (recoverable)."
    );
    let asked = run_uninstall(&p, &plan, &request(true, false));
    assert_eq!(asked.said.lines, shown);
    match asked.act {
        Act::Ask(q) => assert_eq!(q, "\nMove Docker (2.0 KB) to the Trash? [y/N] "),
        other => panic!("unexpected {other:?}"),
    }
    let refused =
        run_uninstall(&p, &plan, &Request { input_terminal: false, ..request(true, false) });
    assert_eq!(refused.said.lines, shown);
    assert!(matches!(refused.act, Act::Fail(_)));
    let go = run_uninstall(&p, &plan, &Request { json: true, ..request(true, true) });
    assert!(go.said.lines.is_empty());
    assert!(matches!(go.act, Act::Go));
}

fn delete_into(log: &RefCell<Vec<String>>) -> impl Fn(&String) -> Result<(), String> + '_ {
    |path: &String| {
        log.borrow_mut().push(path.clone());
        Ok(())
    }
}

fn two_lists() -> ReclaimPlan {
    let at = |name: &str, bytes: u64| ReclaimTarget {
        name: name.into(),
        path: format!("/Users/t/Library/{name}"),
        bytes,
        note: "n".into(),
        auto: true,
    };
    ReclaimPlan {
        auto_targets: vec![at("one", 1024), at("two", 1024)],
        manual_targets: vec![at("mine", 1)],
        auto_bytes: 2048,
    }
}

#[test]
fn a_finished_clean_deletes_the_automatic_targets_alone() {
    let p = palette(false);
    let plan = two_lists();
    let home = Some("/Users/t".to_string());
    let run = |q: &Request, answer: Option<&str>| {
        let log = RefCell::new(Vec::new());
        let answer = answer.map(|a| a.to_string());
        let (said, result) = finish_clean(&p, &plan, q, &answer, &home, delete_into(&log));
        let deleted = log.borrow().clone();
        (said.lines, result, deleted)
    };
    let all = vec!["/Users/t/Library/one".to_string(), "/Users/t/Library/two".to_string()];

    let (said, result, deleted) = run(&request(true, true), None);
    assert_eq!(deleted, all);
    let result = result.unwrap();
    assert_eq!(result.freed_bytes, 2048);
    assert_eq!(said, render_reclaimed(&p, &result).lines);
    for yes in ["y", "Y\n", " yes \n"] {
        assert_eq!(run(&request(true, false), Some(yes)).2, all);
    }
    for no in ["", "n", "YES", "yep", "\n"] {
        let (said, result, deleted) = run(&request(true, false), Some(no));
        assert!(result.is_none() && deleted.is_empty());
        assert_eq!(said, vec!["Aborted. Nothing deleted."]);
    }
    // An answer counts only at a terminal, and nothing does without `--apply`.
    let piped = Request { input_terminal: false, ..request(true, false) };
    let (said, result, deleted) = run(&piped, Some("y"));
    assert!(said.is_empty() && result.is_none() && deleted.is_empty());
    let (said, result, deleted) = run(&request(false, true), Some("y"));
    assert!(said.is_empty() && result.is_none() && deleted.is_empty());
    // For machines the result is handed back, and nothing is said.
    let (said, result, deleted) = run(&Request { json: true, ..request(true, true) }, None);
    assert!(said.is_empty());
    assert_eq!(result.unwrap().deleted.len(), 2);
    assert_eq!(deleted, all);
}

#[test]
fn a_clean_with_no_automatic_target_deletes_nothing() {
    let plan = ReclaimPlan { auto_targets: Vec::new(), ..two_lists() };
    let log = RefCell::new(Vec::new());
    let answer = Some("y".to_string());
    let (said, result) = finish_clean(
        &palette(false),
        &plan,
        &request(true, true),
        &answer,
        &None,
        delete_into(&log),
    );
    assert!(said.lines.is_empty() && result.is_none() && log.borrow().is_empty());
}

#[test]
fn a_plan_is_narrowed_only_where_names_are_given() {
    let names = |plan: &ReclaimPlan| -> Vec<String> {
        plan.auto_targets.iter().chain(&plan.manual_targets).map(|t| t.name.clone()).collect()
    };
    let all = chosen_plan(two_lists(), &Vec::new());
    assert_eq!(names(&all), vec!["one", "two", "mine"]);
    assert_eq!(all.auto_bytes, 2048);
    let some = chosen_plan(two_lists(), &vec!["ONE".into(), "min".into()]);
    assert_eq!(names(&some), vec!["one", "mine"]);
    assert_eq!(some.auto_bytes, 1024);
}

#[test]
fn a_finished_uninstall_moves_what_the_plan_names() {
    let p = palette(false);
    let home = Some("/Users/t".to_string());
    let plan = Some(UninstallPlan {
        app_name: "Docker".into(),
        bundle_id: None,
        app_path: Some("/Applications/Docker.app".into()),
        app_bytes: 1024,
        leftovers: vec![Leftover {
            path: "/Users/t/Library/Caches/Docker".into(),
            bytes: 1024,
            confidence: Confidence::Medium,
            location: "Caches".into(),
        }],
        total_bytes: 2048,
    });
    let run = |plan: &Option<UninstallPlan>, q: &Request, answer: Option<&str>| {
        let log = RefCell::new(Vec::new());
        let answer = answer.map(|a| a.to_string());
        let (said, outcomes) = finish_uninstall(&p, plan, q, &answer, &home, delete_into(&log));
        let moved = log.borrow().clone();
        (said.lines, outcomes, moved)
    };
    let all = vec![
        "/Applications/Docker.app".to_string(),
        "/Users/t/Library/Caches/Docker".to_string(),
    ];

    let (said, outcomes, moved) = run(&plan, &request(true, true), None);
    assert_eq!(moved, all);
    assert_eq!(said, render_removed(&p, &outcomes.unwrap()).lines);
    assert_eq!(said.last().unwrap(), "\n  Moved 2.0 KB to the Trash.");
    assert_eq!(run(&plan, &request(true, false), Some("yes\n")).2, all);
    let (said, outcomes, moved) = run(&plan, &request(true, false), Some("no\n"));
    assert!(outcomes.is_none() && moved.is_empty());
    assert_eq!(said, vec!["Aborted. Nothing moved."]);
    let piped = Request { input_terminal: false, ..request(true, false) };
    assert!(run(&plan, &piped, Some("y")).2.is_empty());
    assert!(run(&plan, &request(false, true), Some("y")).2.is_empty());
    let (said, outcomes, moved) = run(&None, &request(true, true), None);
    assert!(said.is_empty() && outcomes.is_none() && moved.is_empty());
}

#[test]
fn machines_get_the_first_groups() {
    let group = |name: &str| DuplicateGroup {
        bytes: 1,
        wasted: 1,
        paths: vec![format!("/{name}"), format!("/{name}2")],
    };
    let shown = shown_groups(vec![group("a"), group("b"), group("c")], 2);
    assert_eq!(shown.len(), 2);
    assert_eq!(shown[1].paths[0], "/b");
    assert_eq!(shown_groups(vec![group("a")], 5).len(), 1);
    assert!(shown_groups(vec![group("a")], 0).is_empty());
}
