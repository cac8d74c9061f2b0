use deepscan::files::{
    collect_files, days_since, find_duplicates, find_large_files, full_candidates, full_hash,
    quick_candidates, quick_hash, Ages, SizedFile,
};
use deepscan::report::{Confidence, Leftover};
use deepscan::scan::{Entry, Node};
use deepscan::text::{
    align_left, align_right, begins_with, contains_text, decimal_text, eq_ignore_ascii_case,
    goes_before, repeat_text, split_text, trim_text,
};
use deepscan::uninstall::{
    app_dirs, execute_uninstall, find_app, find_leftovers, info_path,
    installed_app_keys, is_app_bundle, leftover_confidence, library_dirs, pick_app,
    plan_uninstall, read_bundle_id, LibraryFile,
};

fn sized(path: &str, bytes: u64) -> SizedFile {
    SizedFile { path: path.into(), bytes }
}

#[test]
fn finds_exact_duplicates_only() {
    let dup = vec![7u8; 2 * 1024 * 1024];
    // same size, different content: must NOT be grouped.
    let mut other = dup.clone();
    other[0] = 0;
    let contents = [dup.clone(), dup, other];
    let files = vec![
        sized("/b/a.bin", 2 * 1024 * 1024),
        sized("/b/b.bin", 2 * 1024 * 1024),
        sized("/b/c.bin", 2 * 1024 * 1024),
    ];
    assert_eq!(quick_candidates(&files), vec![true, true, true]);
    let quick: Vec<Option<Vec<u8>>> = contents.iter().map(|c| Some(quick_hash(c))).collect();
    assert_eq!(full_candidates(&files, &quick), vec![true, true, false]);
    let full: Vec<Option<Vec<u8>>> = vec![
        Some(full_hash(&contents[0])),
        Some(full_hash(&contents[1])),
        None,
    ];
    let groups = find_duplicates(&files, &quick, &full);
    assert_eq!(groups.len(), 1, "exactly one duplicate set");
    assert_eq!(groups[0].paths.len(), 2);
    assert_eq!(groups[0].wasted, 2 * 1024 * 1024);
    assert_eq!(groups[0].paths, vec!["/b/a.bin", "/b/b.bin"]);
}

#[test]
fn near_misses_differ_only_past_the_start() {
    let a = vec![1u8; 20_000];
    let mut b = a.clone();
    b[19_999] = 2;
    assert_eq!(quick_hash(&a), quick_hash(&b), "the first 16 KiB are the same");
    assert_ne!(full_hash(&a), full_hash(&b));
    assert_eq!(quick_hash(&a), full_hash(&vec![1u8; 16_384]));
    let files = vec![sized("/a", 20_000), sized("/b", 20_000)];
    let quick = vec![Some(quick_hash(&a)), Some(quick_hash(&b))];
    assert_eq!(full_candidates(&files, &quick), vec![true, true]);
    let full = vec![Some(full_hash(&a)), Some(full_hash(&b))];
    assert!(find_duplicates(&files, &quick, &full).is_empty());
}

#[test]
fn digests_are_blake3() {
    let hex: String = full_hash(&Vec::new()).iter().map(|b| format!("{b:02x}")).collect();
    assert_eq!(hex, "af1349b9f5f9a1a6a0404dea36dcc9499bcb25c9adc112b7cc9a93cae41f3262");
    assert_eq!(full_hash(&vec![1, 2, 3]), blake3::hash(&[1, 2, 3]).as_bytes().to_vec());
}

#[test]
fn groups_are_ranked_and_unreadable_files_left_out() {
    let d = |n: u8| Some(vec![n; 32]);
    let files = vec![
        sized("/s1", 10),
        sized("/l1", 100),
        sized("/s2", 10),
        sized("/l2", 100),
        sized("/s3", 10),
        sized("/u1", 100),
        sized("/alone", 5),
    ];
    let quick = vec![d(1), d(2), d(1), d(2), d(1), None, None];
    let full = vec![d(3), d(4), d(3), d(4), d(3), d(4), None];
    assert_eq!(
        quick_candidates(&files),
        vec![true, true, true, true, true, true, false]
    );
    let groups = find_duplicates(&files, &quick, &full);
    let got: Vec<(u64, u64, usize)> = groups.iter().map(|g| (g.bytes, g.wasted, g.paths.len())).collect();
    assert_eq!(got, vec![(100, 100, 2), (10, 20, 3)]);
    // A digest that nothing makes necessary changes nothing.
    let more = vec![d(3), d(4), d(3), d(4), d(3), d(4), d(9)];
    let again = find_duplicates(&files, &quick, &more);
    assert_eq!(again.len(), groups.len());
}

#[test]
fn large_files_are_collected_and_aged() {
    let root = Node::Dir(vec![
        Entry { name: "small".into(), node: Node::File(9) },
        Entry { name: "big".into(), node: Node::File(10) },
        Entry {
            name: "d".into(),
            node: Node::Dir(vec![Entry { name: "huge".into(), node: Node::File(99) }]),
        },
        Entry { name: "link".into(), node: Node::Other },
    ]);
    let files = collect_files("/r", &root, 10);
    let got: Vec<(&str, u64)> = files.iter().map(|f| (f.path.as_str(), f.bytes)).collect();
    assert_eq!(got, vec![("/r/big", 10), ("/r/d/huge", 99)]);
    let large = find_large_files(
        &files,
        &vec![
            Ages { modified: Some(86_399), accessed: None },
            Ages { modified: None, accessed: Some(2 * 86_400) },
        ],
    );
    assert_eq!(large[0].path, "/r/d/huge");
    assert_eq!(large[0].accessed_days, Some(2));
    assert_eq!(large[0].modified_days, None);
    assert_eq!(large[1].modified_days, Some(0));
    assert_eq!(days_since(Some(86_400)), Some(1));
    assert!(collect_files("/r", &Node::File(50), 1).is_empty(), "only directories are walked");
}

fn names(v: &[&str]) -> Vec<String> {
    v.iter().map(|s| s.to_string()).collect()
}

#[test]
fn apps_are_found_by_name() {
    let apps = names(&[
        "/Applications/Docker Desktop.app",
        "/Applications/notes.txt",
        "/Applications/Docker Pro.APP",
        "/Users/x/Applications/docker.app",
    ]);
    assert_eq!(
        find_app("Docker", false, &apps).as_deref(),
        Some("/Users/x/Applications/docker.app"),
        "an exact name wins"
    );
    assert_eq!(
        find_app("dock", false, &names(&["/A/Docker Desktop.app", "/A/Docker Pro.app", "/A/Dock2 Prod.app"])).as_deref(),
        Some("/A/Docker Pro.app"),
        "the shortest name, the first of several"
    );
    assert_eq!(find_app("notes", false, &apps), None);
    assert_eq!(find_app("/X/Y.app", true, &apps).as_deref(), Some("/X/Y.app"));
    assert_eq!(find_app("/X/Y.app", false, &apps), None);
    assert!(is_app_bundle("/a/B.App"));
    assert!(!is_app_bundle("/a/.app"));
    let listed = vec![Some("abc".to_string()), None, Some("ab".to_string())];
    assert_eq!(pick_app(&listed, "ab"), Some(2));
    assert_eq!(pick_app(&listed, "b"), Some(2));
    assert_eq!(pick_app(&listed, "z"), None);
}

#[test]
fn app_directories() {
    assert_eq!(app_dirs(&Some("/Users/x".into())), vec!["/Applications", "/Users/x/Applications"]);
    assert_eq!(app_dirs(&None), vec!["/Applications"]);
    assert_eq!(info_path("/A/B.app"), "/A/B.app/Contents/Info");
}

#[test]
fn bundle_ids_are_trimmed() {
    assert_eq!(read_bundle_id(true, " com.docker.docker\n").as_deref(), Some("com.docker.docker"));
    assert_eq!(read_bundle_id(true, " \n"), None);
    assert_eq!(read_bundle_id(false, "com.x"), None);
}

#[test]
fn leftovers_are_graded() {
    let id = Some("com.docker.Docker".to_string());
    assert_eq!(leftover_confidence("group.COM.docker.docker", "Docker", &id), Some(Confidence::High));
    assert_eq!(leftover_confidence("docker-desktop", "Docker", &id), Some(Confidence::Medium));
    assert_eq!(leftover_confidence("my-docker", "Docker", &id), None);
    assert_eq!(leftover_confidence("com.docker.docker", "Docker", &None), None);
    assert_eq!(leftover_confidence("aBc", "Ab", &None), Some(Confidence::Medium));
    assert_eq!(leftover_confidence("xiD", "ab", &Some("Id".into())), Some(Confidence::High));
}

#[test]
fn leftovers_are_ranked_across_locations() {
    let libs = library_dirs();
    assert_eq!(libs.len(), 11);
    let mut listings: Vec<Vec<LibraryFile>> = libs.iter().map(|_| Vec::new()).collect();
    listings[0].push(LibraryFile { name: "Docker".into(), path: "/L/Docker".into(), bytes: 5 });
    listings[1].push(LibraryFile { name: "com.docker.docker".into(), path: "/C/x".into(), bytes: 50 });
    listings[1].push(LibraryFile { name: "other".into(), path: "/C/o".into(), bytes: 500 });
    let found = find_leftovers("Docker", &Some("com.docker.docker".into()), &listings);
    assert_eq!(found.len(), 2);
    assert_eq!(found[0].path, "/C/x");
    assert_eq!(found[0].location, "Caches");
    assert_eq!(found[0].confidence, Confidence::High);
    assert_eq!(found[1].location, "Application Support");
    let plan = plan_uninstall("docker", Some("/Applications/Docker.app".into()), None, 100, found).unwrap();
    assert_eq!(plan.app_name, "Docker");
    assert_eq!(plan.total_bytes, 155);
    assert!(plan_uninstall("ghost", None, None, 0, Vec::new()).is_none());
    let by_id = plan_uninstall("ghost", None, Some("com.ghost".into()), 7, Vec::new()).unwrap();
    assert_eq!(by_id.app_name, "ghost");
    assert_eq!(by_id.app_bytes, 0);
}

#[test]
fn uninstalling_refuses_unsafe_paths() {
    let leftover = |path: &str| Leftover {
        path: path.into(),
        bytes: 1,
        confidence: Confidence::High,
        location: "Caches".into(),
    };
    let plan = plan_uninstall(
        "App",
        Some("/Applications/App.app".into()),
        None,
        4,
        vec![leftover("/Users/x"), leftover("/Users/x/Library/Caches/app"), leftover("/Users/x/busy")],
    )
    .unwrap();
    let outcomes = execute_uninstall(&plan, &Some("/Users/x".into()), |p: &String| {
        assert_ne!(p, "/Users/x");
        if p.ends_with("busy") {
            Err("busy".to_string())
        } else {
            Ok(())
        }
    });
    let got: Vec<(&str, bool, Option<&str>)> = outcomes
        .iter()
        .map(|o| (o.path.as_str(), o.ok, o.error.as_deref()))
        .collect();
    assert_eq!(
        got,
        vec![
            ("/Applications/App.app", true, None),
            ("/Users/x", false, Some("refused: failed safety guard")),
            ("/Users/x/Library/Caches/app", true, None),
            ("/Users/x/busy", false, Some("busy")),
        ]
    );
}

#[test]
fn app_keys_are_a_vocabulary() {
    let apps = names(&["/A/Docker.app", "/A/readme.md", "/B/DOCKER.app", "/B/Zed.app"]);
    let ids = vec![Some("com.Docker".to_string()), Some("x".to_string()), None, None];
    let keys = installed_app_keys(&apps, &ids);
    assert_eq!(keys, vec!["docker", "com.docker", "zed"]);
}

#[test]
fn texts() {
    assert_eq!(decimal_text(0), "0");
    assert_eq!(decimal_text(u64::MAX), "18446744073709551615");
    assert_eq!(align_right("ab", 4), "  ab");
    assert_eq!(align_left("äb", 4), "äb  ");
    assert_eq!(align_right("abcde", 4), "abcde");
    assert_eq!(repeat_text("xy", 2), "xyxy");
    assert!(contains_text("haystack", "sta"));
    assert!(contains_text("", ""));
    assert!(!contains_text("ab", "abc"));
    assert!(begins_with("com.apple.x", "com.apple"));
    assert!(!begins_with("co", "com"));
    assert_eq!(trim_text("\u{3000} a b\t\n"), "a b");
    assert_eq!(split_text("a,,b,", ','), vec!["a", "", "b", ""]);
    assert_eq!(split_text("", ','), vec![""]);
    assert!(eq_ignore_ascii_case("ApP", "aPp"));
    assert!(!eq_ignore_ascii_case("Ä", "ä"));
    for a in ["", "a", "b", "ab", "é", "𝄞", "Z"] {
        for b in ["", "a", "b", "ab", "é", "𝄞", "Z"] {
            assert_eq!(goes_before(a, b), a < b, "{a} {b}");
        }
    }
    for c in (0..=0x3100u32).filter_map(char::from_u32) {
        let s = format!("{c}x{c}");
        assert_eq!(trim_text(&s), s.trim(), "{:x}", c as u32);
    }
}
