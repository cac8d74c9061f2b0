use deepscan::report::{ChildSize, DiskSpace};
use deepscan::tui::explorer;
use deepscan::tui::explorer::{BrowseAction, Browser, Child, Load};
use deepscan::tui::keys::Key;
use deepscan::tui::tree;
use deepscan::tui::tree::{
    build_level, entry_line, folders_to_size, header_line, percent, reconciliation, sort_by_size,
    Level, LevelNews, Listed, ListedKind, SizeNews, TreeAction,
};

fn sized(name: &str, bytes: u64) -> explorer::Entry {
    explorer::Entry {
        name: name.to_string(),
        path: format!("/root/{name}"),
        bytes: Some(bytes),
    }
}

fn explorer_with(items: Vec<explorer::Entry>) -> explorer::Explorer {
    explorer::Explorer {
        stack: vec![explorer::Level {
            path: "/root".into(),
            items,
            selected: 0,
            loading: false,
        }],
        cache: Vec::new(),
    }
}

#[test]
fn navigation_clamps_and_stacks() {
    let mut explorer = explorer_with(vec![sized("a", 30), sized("b", 20), sized("c", 10)]);
    explorer.move_up();
    assert_eq!(explorer.current().selected, 0, "clamps at top");
    explorer.move_down();
    explorer.move_down();
    explorer.move_down();
    assert_eq!(explorer.current().selected, 2, "clamps at bottom");

    explorer.stack.push(explorer::Level {
        path: "/root/a".into(),
        items: vec![sized("x", 5)],
        selected: 0,
        loading: false,
    });
    assert!(explorer.back());
    assert_eq!(explorer.current().path, "/root");
    assert!(!explorer.back(), "cannot pop the root");
}

#[test]
fn apply_sizes_fills_and_keeps_cursor() {
    let no_size = |name: &str| explorer::Entry {
        name: name.to_string(),
        path: format!("/root/{name}"),
        bytes: None,
    };
    let mut explorer = explorer_with(vec![no_size("a"), no_size("b")]);
    explorer.current_mut().loading = true;
    explorer.current_mut().selected = 0; // on "a"

    // Sizing returns the largest first; "b" is bigger.
    let results = vec![
        ChildSize { name: "b".into(), path: "/root/b".into(), bytes: 99 },
        ChildSize { name: "a".into(), path: "/root/a".into(), bytes: 1 },
    ];
    explorer.apply_sizes("/root", &results);

    assert!(!explorer.current().loading);
    assert_eq!(explorer.current().items[0].name, "b", "sorted by size");
    assert_eq!(explorer.current().items[0].bytes, Some(99));
    assert_eq!(
        explorer.current().selected,
        1,
        "cursor follows 'a' to its new row"
    );
    assert!(explorer::find_cached(&explorer.cache, "/root").is_some());
}

fn child(dir: &str, name: &str) -> Child {
    Child { name: name.into(), path: format!("{dir}/{name}") }
}

#[test]
fn browsing_sizes_the_level_that_is_shown() {
    let mut b = Browser {
        explorer: explorer::Explorer::new("/r".into(), &vec![child("/r", "B"), child("/r", "a")]),
        pending: None,
    };
    let names: Vec<&str> = b.explorer.current().items.iter().map(|e| e.name.as_str()).collect();
    assert_eq!(names, vec!["a", "B"]);
    match b.next_load() {
        Load::Start(p) => assert_eq!(p, "/r"),
        other => panic!("unexpected {other:?}"),
    }
    // While something is being sized nothing more is asked for.
    assert!(matches!(b.next_load(), Load::Nothing));
    // Drilling in re-targets the sizing.
    let target = match b.on_key(Key::Enter) {
        BrowseAction::Enter(p) => p,
        other => panic!("unexpected {other:?}"),
    };
    assert_eq!(target, "/r/a");
    assert!(b.explorer.descend(true, &vec![child("/r/a", "x")]));
    b.retarget();
    assert_eq!(b.pending, None);
    match b.next_load() {
        Load::Start(p) => assert_eq!(p, "/r/a"),
        other => panic!("unexpected {other:?}"),
    }
    b.finish_load(Some(vec![ChildSize { name: "x".into(), path: "/r/a/x".into(), bytes: 8 }]));
    assert_eq!(b.explorer.current().items[0].bytes, Some(8));
    assert!(matches!(b.next_load(), Load::Nothing));
    // Back at the root; entering again takes the sizes from the cache.
    b.on_key(Key::Left);
    assert_eq!(b.explorer.current().path, "/r");
    assert!(b.explorer.descend(true, &Vec::new()));
    assert!(!b.explorer.current().loading);
    assert_eq!(b.explorer.current().items.len(), 1);
    assert!(matches!(b.on_key(Key::Char('q')), BrowseAction::Quit));
}

#[test]
fn a_failed_sizing_leaves_the_level_loading() {
    let mut b = Browser {
        explorer: explorer::Explorer::new("/r".into(), &vec![child("/r", "a")]),
        pending: None,
    };
    b.next_load();
    b.finish_load(None);
    assert_eq!(b.pending, None);
    assert!(b.explorer.current().loading);
    assert!(!b.explorer.descend(false, &Vec::new()), "a file is not entered");
    assert_eq!(b.explorer.stack.len(), 1);
}

#[test]
fn browser_texts() {
    let mut e = explorer_with(vec![sized("a", 2048)]);
    assert_eq!(explorer::header_line(e.current(), 0, 0), " /root   2.0 KB  (1 items)");
    e.current_mut().loading = true;
    assert_eq!(
        explorer::header_line(e.current(), 3, 1024),
        " /root   computing… 1.0 KB scanned · 3 dirs"
    );
    assert_eq!(
        explorer::entry_line(&e.current().items[0], 2048),
        " ████████████████      2.0 KB  a"
    );
    let unknown = explorer::Entry { name: "b".into(), path: "/root/b".into(), bytes: None };
    assert_eq!(explorer::entry_line(&unknown, 1), format!(" {}  {:>10}  b", " ".repeat(16), "—"));
    assert!(explorer::footer_line(true).ends_with("(sizes still computing…)"));
    assert_eq!(explorer::footer_line(false), " ↑↓ move   → enter   ← back   q quit");
}

fn dir_entry(name: &str, bytes: Option<u64>) -> tree::Entry {
    tree::Entry {
        name: name.to_string(),
        path: format!("/root/{name}"),
        is_dir: true,
        bytes,
    }
}

fn level(items: Vec<tree::Entry>) -> Level {
    Level {
        path: "/root".into(),
        items,
        selected: 0,
        sizing: false,
        pending: 0,
    }
}

fn tree_explorer(items: Vec<tree::Entry>) -> tree::Explorer {
    tree::Explorer {
        stack: vec![level(items)],
        cache: Vec::new(),
        disk: None,
    }
}

#[test]
fn navigation_clamps_and_pops() {
    let mut explorer = tree_explorer(vec![
        dir_entry("a", Some(30)),
        dir_entry("b", Some(20)),
        dir_entry("c", Some(10)),
    ]);
    explorer.move_up();
    assert_eq!(explorer.current().selected, 0, "clamps at top");
    explorer.move_down();
    explorer.move_down();
    explorer.move_down();
    assert_eq!(explorer.current().selected, 2, "clamps at bottom");

    explorer.stack.push(level(vec![dir_entry("x", Some(5))]));
    explorer.back();
    assert_eq!(explorer.current().path, "/root");
    explorer.back(); // no-op at root
    assert_eq!(explorer.stack.len(), 1);
}

#[test]
fn sort_by_size_keeps_cursor() {
    let mut lvl = level(vec![dir_entry("a", Some(1)), dir_entry("b", Some(99))]);
    lvl.selected = 0; // cursor on "a"
    sort_by_size(&mut lvl);
    assert_eq!(lvl.items[0].name, "b", "largest first");
    assert_eq!(lvl.selected, 1, "cursor follows 'a' to its new row");
}

fn listed(name: &str, kind: ListedKind) -> Listed {
    Listed { name: name.into(), path: format!("/root/{name}"), kind }
}

#[test]
fn levels_list_folders_by_name_and_skip_links() {
    let l = build_level(
        "/root".into(),
        &Vec::new(),
        &vec![
            listed("zoo", ListedKind::Dir),
            listed("link", ListedKind::Skipped),
            listed("Apple", ListedKind::Dir),
            listed("file", ListedKind::File(7)),
        ],
    );
    let names: Vec<&str> = l.items.iter().map(|e| e.name.as_str()).collect();
    assert_eq!(names, vec!["Apple", "file", "zoo"]);
    assert_eq!(l.pending, 2);
    assert!(l.sizing);
    assert_eq!(folders_to_size(&l), vec!["/root/Apple", "/root/zoo"]);
}

#[test]
fn a_level_of_files_is_sorted_at_once() {
    let l = build_level(
        "/root".into(),
        &Vec::new(),
        &vec![listed("a", ListedKind::File(1)), listed("b", ListedKind::File(9))],
    );
    assert!(!l.sizing);
    let names: Vec<&str> = l.items.iter().map(|e| e.name.as_str()).collect();
    assert_eq!(names, vec!["b", "a"]);
    assert_eq!(l.selected, 1, "the cursor stays on the first name");
}

#[test]
fn sizes_stream_in_and_finished_levels_are_cached() {
    let mut e = tree::Explorer::new(
        "/root".into(),
        &vec![listed("a", ListedKind::Dir), listed("b", ListedKind::Dir)],
        None,
    );
    e.drain_all(&vec![LevelNews {
        sizes: vec![SizeNews { path: "/root/b".into(), bytes: 50 }],
        closed: false,
    }]);
    assert_eq!(e.current().pending, 1);
    assert!(e.current().sizing);
    assert_eq!(e.current().items[1].bytes, Some(50));
    assert!(e.cache.is_empty());
    e.drain_all(&vec![LevelNews {
        sizes: vec![SizeNews { path: "/root/a".into(), bytes: 10 }],
        closed: false,
    }]);
    assert!(!e.current().sizing);
    assert_eq!(e.current().items[0].name, "b");
    assert_eq!(e.current().selected, 1, "the cursor stays on a");
    assert_eq!(e.cache.len(), 1);
    // A revisit comes from the cache.
    assert!(!e.needs_listing("/root"));
    let again = build_level("/root".into(), &e.cache, &Vec::new());
    assert_eq!(again.items.len(), 2);
    assert_eq!(again.items[0].bytes, Some(50));
}

#[test]
fn a_closed_channel_finishes_the_level() {
    let mut e = tree::Explorer::new("/root".into(), &vec![listed("a", ListedKind::Dir)], None);
    e.drain_all(&vec![LevelNews { sizes: Vec::new(), closed: true }]);
    assert!(!e.current().sizing);
    assert_eq!(e.current().items[0].bytes, None);
}

#[test]
fn entering_and_leaving_folders() {
    let mut e = tree::Explorer::new(
        "/root".into(),
        &vec![listed("a", ListedKind::Dir), listed("f", ListedKind::File(1))],
        None,
    );
    let target = match e.on_key(Key::Right) {
        TreeAction::Enter(p) => p,
        other => panic!("unexpected {other:?}"),
    };
    assert_eq!(target, "/root/a");
    assert!(e.needs_listing(&target));
    e.enter(target, &vec![Listed { name: "x".into(), path: "/root/a/x".into(), kind: ListedKind::File(3) }]);
    assert_eq!(e.stack.len(), 2);
    assert!(matches!(e.on_key(Key::Enter), TreeAction::Stay), "a file is not entered");
    e.on_key(Key::Char('h'));
    assert_eq!(e.stack.len(), 1);
    assert!(matches!(e.on_key(Key::Esc), TreeAction::Quit));
}

#[test]
fn tree_texts() {
    let mut e = tree_explorer(vec![dir_entry("a", Some(1024)), dir_entry("b", None)]);
    e.disk = Some(DiskSpace { path: "/".into(), total: 8192, used: 4096, free: 0 });
    assert_eq!(header_line(e.current()), " /root   1.0 KB   (2 items)");
    assert_eq!(
        reconciliation(&e),
        " volume 4.0 KB used of 8.0 KB · this tree is 25% · 3.0 KB elsewhere (system files + snapshots — see: deepscan space)"
    );
    e.stack[0].pending = 1;
    assert_eq!(
        header_line(e.current()),
        " /root   1.0 KB so far · sizing 1 folder(s)…   (2 items)"
    );
    assert_eq!(reconciliation(&e), " volume 4.0 KB used of 8.0 KB · sizing this tree…");
    assert_eq!(entry_line(&e.current().items[0], 4096, 0), " ████············      1.0 KB  a/");
    assert_eq!(
        entry_line(&e.current().items[1], 4096, 13),
        format!(" {:<16}  {:>10}  b/", "⠸ sizing", "—")
    );
    e.stack.push(level(Vec::new()));
    assert_eq!(reconciliation(&e), "");
    assert_eq!(percent(1, 0), 0);
    assert_eq!(percent(u64::MAX, 2), u64::MAX / 2);
    assert_eq!(tree::bar_scale(&e.stack[0].items), 1024);
}
