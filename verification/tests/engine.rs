use std::cell::RefCell;

use deepscan::catalog::{catalog_paths, default_catalog, evaluate_catalog, CatalogEntry};
use deepscan::engine::{
    build_reclaim_plan, build_report, execute_reclaim_with, is_safe_to_delete, is_safe_to_trash,
    plan_buckets, ReclaimTarget, ReportError, ReportInput,
};
use deepscan::report::{Bucket, DiskSpace};
use deepscan::scan::{Entry, Node};
use deepscan::signatures::{Hit, Signature};

fn home() -> Option<String> {
    Some("/Users/tester".to_string())
}

#[test]
fn guard_rejects_dangerous_paths() {
    let home = home();
    assert!(!is_safe_to_delete("/", &home));
    assert!(!is_safe_to_delete("/Users", &home));
    assert!(!is_safe_to_delete("/Users/tester", &home));
    assert!(!is_safe_to_delete("relative/path", &home));
    assert!(!is_safe_to_delete("/Users/tester/../etc", &home));
    assert!(is_safe_to_delete("/Users/tester/Library/Caches", &home));
}

#[test]
fn trash_guard_lets_app_bundles_pass() {
    let home = home();
    assert!(is_safe_to_trash("/Applications/Docker.app", &home));
    assert!(!is_safe_to_delete("/Applications/Docker.app", &home));
    assert!(!is_safe_to_trash("/Applications", &home));
    assert!(!is_safe_to_trash("/", &home));
    assert!(!is_safe_to_trash("/Users/tester", &home));
    assert!(!is_safe_to_trash("/Users/tester/", &home), "the same directory");
    assert!(!is_safe_to_trash("/Users/./tester", &home), "the same directory");
    assert!(!is_safe_to_trash("Applications/a/b/c", &home));
    assert!(!is_safe_to_trash("/Users/tester/a/../b", &home));
    assert!(is_safe_to_trash("/Users/tester", &None));
}

#[test]
fn execute_reclaim_deletes_only_safe_targets() {
    let targets = vec![
        ReclaimTarget {
            name: "fixture cache".to_string(),
            path: "/tmp/deepscan-test/cache_dir".to_string(),
            bytes: 1024,
            note: String::new(),
            auto: true,
        },
        // A path that fails the guard must be refused, not deleted.
        ReclaimTarget {
            name: "root".to_string(),
            path: "/".to_string(),
            bytes: 0,
            note: String::new(),
            auto: true,
        },
    ];
    let gone = RefCell::new(Vec::new());
    let result = execute_reclaim_with(&targets, &Some("/nonexistent-home".to_string()), |p: &String| {
        gone.borrow_mut().push(p.clone());
        Ok(())
    });
    assert_eq!(result.freed_bytes, 1024);
    assert_eq!(gone.borrow().as_slice(), ["/tmp/deepscan-test/cache_dir"]);
    assert!(result.deleted[0].ok);
    assert_eq!(result.deleted[0].error, None);
    assert!(!result.deleted[1].ok, "root must be refused");
    assert_eq!(
        result.deleted[1].error.as_deref(),
        Some("refused: failed safety guard")
    );
}

#[test]
fn a_failed_delete_frees_nothing() {
    let targets = vec![ReclaimTarget {
        name: "n".into(),
        path: "/a/b/c".into(),
        bytes: 9,
        note: String::new(),
        auto: true,
    }];
    let result = execute_reclaim_with(&targets, &None, |_: &String| Err("denied".to_string()));
    assert_eq!(result.freed_bytes, 0);
    assert!(!result.deleted[0].ok);
    assert_eq!(result.deleted[0].error.as_deref(), Some("denied"));
    assert_eq!(result.deleted[0].bytes, 9);
}

#[test]
fn catalog_expands_home_and_drops_empty_entries() {
    let entries = default_catalog();
    assert_eq!(entries.len(), 15);
    let paths = catalog_paths(&entries, &home());
    assert_eq!(paths[0], "/Users/tester/Library/Developer/Xcode/DerivedData");
    assert_eq!(paths[6], "/Users/tester/.npm");
    let unknown = catalog_paths(&entries, &None);
    assert_eq!(unknown[6], "~/.npm", "without a home directory nothing is replaced");

    let two = vec![
        CatalogEntry { name: "a", category: "c", path: "~", note: "n", safe_auto: true },
        CatalogEntry { name: "b", category: "c", path: "~x/y", note: "m", safe_auto: false },
        CatalogEntry { name: "d", category: "c", path: "/p", note: "o", safe_auto: false },
    ];
    let buckets = evaluate_catalog(&two, &home(), &vec![3, 5, 0]);
    assert_eq!(buckets.len(), 2);
    assert_eq!(buckets[0].name, "b");
    assert_eq!(buckets[0].path, "~x/y", "another user's home is left alone");
    assert_eq!(buckets[0].bytes, 5);
    assert_eq!(buckets[1].path, "/Users/tester");
    assert!(buckets[1].safe_auto);
    assert_eq!(buckets[1].note, "n");
}

#[test]
fn user_files_are_never_automatic() {
    let plan = build_reclaim_plan(&home(), &vec![1; 15]);
    let auto: Vec<&str> = plan.auto_targets.iter().map(|t| t.name.as_str()).collect();
    let manual: Vec<&str> = plan.manual_targets.iter().map(|t| t.name.as_str()).collect();
    for name in ["Downloads", "Simulator devices", "pnpm store", "Xcode Archives", "Trash"] {
        assert!(manual.contains(&name), "{name}");
        assert!(!auto.contains(&name), "{name}");
    }
    for name in ["User caches", "npm cache", "Cargo registry", "Xcode DerivedData"] {
        assert!(auto.contains(&name), "{name}");
    }
    assert_eq!(auto.len() + manual.len(), 15);
    assert_eq!(plan.auto_bytes, auto.len() as u64);
    assert!(plan
        .auto_targets
        .iter()
        .all(|t| t.auto && is_safe_to_delete(&t.path, &home())));
}

#[test]
fn a_home_at_the_root_makes_nothing_automatic() {
    // `~/.npm` would be `/.npm`, too close to the root.
    let plan = plan_buckets(
        vec![Bucket {
            name: "npm cache".into(),
            category: "cache".into(),
            path: "/.npm".into(),
            bytes: 4,
            note: String::new(),
            safe_auto: true,
        }],
        &Some("/".to_string()),
    );
    assert!(plan.auto_targets.is_empty());
    assert_eq!(plan.manual_targets.len(), 1);
    assert_eq!(plan.auto_bytes, 0);
}

fn file(name: &str, len: u64) -> Entry {
    Entry { name: name.into(), node: Node::File(len) }
}

fn dir(name: &str, entries: Vec<Entry>) -> Entry {
    Entry { name: name.into(), node: Node::Dir(entries) }
}

fn signature(name: &str) -> Signature {
    Signature {
        name: name.into(),
        description: String::new(),
        path: String::new(),
        file_pattern: None,
        owner: None,
        baseline_mb: 0,
        severity: None,
        root_cause: None,
        prevention: None,
        safe_delete: None,
    }
}

#[test]
fn report_with_a_tree() {
    let root = Node::Dir(vec![
        file("small", 1),
        dir("big", vec![file("x", 10), dir("deep", vec![file("y", 5)])]),
        file("empty", 0),
    ]);
    let mut sizes = vec![0; 15];
    sizes[6] = 3;
    sizes[14] = 4;
    let signatures = vec![signature("leak")];
    let hits = vec![vec![Hit { path: "/r/l".into(), node: Node::File(2) }]];
    let report = build_report(
        "/r",
        &home(),
        ReportInput {
            top: 12,
            depth: 1,
            root: &root,
            disk: Some(DiskSpace { path: "/r".into(), total: 9, used: 8, free: 1 }),
            sizes: &sizes,
            signatures: &signatures,
            hits: &hits,
        },
    )
    .unwrap();
    assert_eq!(report.root, "/r");
    assert_eq!(report.total_bytes, 16);
    let children: Vec<(&str, &str, u64)> = report
        .children
        .iter()
        .map(|c| (c.name.as_str(), c.path.as_str(), c.bytes))
        .collect();
    assert_eq!(children, vec![("big", "/r/big", 15), ("small", "/r/small", 1)]);
    let tree = report.tree.unwrap();
    assert_eq!(tree.bytes, 16);
    assert_eq!(tree.children[0].name, "big");
    assert!(tree.children[0].children.is_empty(), "one level only");
    assert_eq!(report.reclaimable_bytes, 7);
    assert_eq!(report.buckets[0].name, "Downloads");
    assert_eq!(report.findings.len(), 1);
    assert_eq!(report.disk.unwrap().used, 8);
}

#[test]
fn report_shows_only_the_top_children() {
    let root = Node::Dir(vec![file("a", 1), file("b", 3), file("c", 2)]);
    let report = build_report(
        "/r",
        &None,
        ReportInput {
            top: 2,
            depth: 2,
            root: &root,
            disk: None,
            sizes: &vec![0; 15],
            signatures: &Vec::new(),
            hits: &Vec::new(),
        },
    )
    .unwrap();
    let names: Vec<&str> = report.children.iter().map(|c| c.name.as_str()).collect();
    assert_eq!(names, vec!["b", "c"]);
    assert_eq!(report.total_bytes, 6);
}

#[test]
fn report_without_a_tree_needs_no_directory() {
    let input = |depth| ReportInput {
        top: 1,
        depth,
        root: &Node::Other,
        disk: None,
        sizes: Box::leak(Box::new(vec![0; 15])),
        signatures: Box::leak(Box::new(Vec::new())),
        hits: Box::leak(Box::new(Vec::new())),
    };
    let report = build_report("/r", &None, input(0)).unwrap();
    assert!(report.tree.is_none());
    assert_eq!(report.total_bytes, 0);
    assert!(report.children.is_empty());
    assert!(matches!(build_report("/r", &None, input(1)), Err(ReportError::NotADirectory)));
}

#[test]
fn automatic_targets_are_caches_below_home() {
    let catalog = default_catalog();
    let plan = build_reclaim_plan(&home(), &vec![1; catalog.len()]);
    let regenerable: Vec<&str> =
        catalog.iter().filter(|e| e.safe_auto).map(|e| e.name).collect();
    let names: Vec<&str> = plan.auto_targets.iter().map(|t| t.name.as_str()).collect();
    assert_eq!(names, regenerable, "equal sizes keep the order of the catalog");
    assert!(plan.auto_targets.iter().all(|t| t.path.starts_with("/Users/tester/")));
    assert_eq!(plan.auto_targets.len() + plan.manual_targets.len(), catalog.len());
    assert_eq!(plan.auto_bytes, regenerable.len() as u64);
}
