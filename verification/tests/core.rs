use std::path::Path;

use deepscan::anomaly::{
    analyze_container, classify, default_zones, detect_anomalies, median_bytes, severity_for,
    zone_children, AnomalyKind, Container, SizedDir,
};
use deepscan::baseline::{
    compute_growth, history_path, lookup_size, record_and_compare, snapshot_now, FolderSize,
    Snapshot,
};
use deepscan::baselines::{
    baseline_ratio, is_above_typical, is_usable, lookup_baseline, one, Baseline,
};
use deepscan::double::{full_columns, is_ten_times, nearest_of, reaches, round_div, Threshold};
use deepscan::expand::{expand_paths, expand_tilde, expansion_or, lookup_var, Var};
use deepscan::path::{
    components_of, extension, file_name, file_stem, has_part, is_absolute, is_same_path, is_under,
    join_path,
};
use deepscan::report::{checked_total, human, max_severity, mb_bytes, Severity};
use deepscan::scan::{
    build_tree, checked_measure, count_matching_files, is_pattern, measure_path, scan_children,
    Entry, Node,
};
use deepscan::signatures::{evaluate_signatures, Hit, Signature};
use deepscan::space::{disk_space, local_snapshots, space_report, VolumeStats};

const MB: u64 = 1024 * 1024;
const GB: u64 = 1024 * MB;

fn home() -> Option<String> {
    Some("/Users/x".to_string())
}

fn file(name: &str, len: u64) -> Entry {
    Entry { name: name.into(), node: Node::File(len) }
}

fn dir(name: &str, entries: Vec<Entry>) -> Entry {
    Entry { name: name.into(), node: Node::Dir(entries) }
}

#[test]
fn flags_lone_outlier_among_empty_siblings() {
    // Three tiny siblings + one fat one.
    let mut entries: Vec<Entry> = ["a", "b", "c"]
        .iter()
        .map(|name| dir(name, vec![file("x", 16)]))
        .collect();
    entries.push(dir("leaker", vec![file("big", 8 * 1024 * 1024)]));
    entries.push(file("stray", 8 * 1024 * 1024));

    // Floor 1 MB so the 8 MB leaker is flagged but the 16-byte siblings aren't.
    let anomalies = analyze_container("test", "/base", &entries, 1024 * 1024, &home());
    assert_eq!(anomalies.len(), 1);
    assert_eq!(anomalies[0].name, "leaker");
    assert_eq!(anomalies[0].siblings, 4);
    assert_eq!(anomalies[0].path, "/base/leaker");
    assert_eq!(anomalies[0].median_bytes, 16);
    let ratio = anomalies[0].ratio.unwrap();
    assert_eq!((ratio.part, ratio.whole), (8 * 1024 * 1024, 16));
}

#[test]
fn a_lone_child_is_no_outlier() {
    let entries = vec![dir("only", vec![file("x", 99 * GB)])];
    assert!(analyze_container("test", "/base", &entries, 1, &home()).is_empty());
}

#[test]
fn classifies_caches_vs_app_data() {
    // Caches, any `Caches` ancestor, and per-user temp scratch are caches.
    assert_eq!(
        classify("/Users/x/Library/Caches/com.spotify.client", &home()),
        AnomalyKind::Cache
    );
    assert_eq!(
        classify("/private/var/folders/aa/bb/C/com.foo", &home()),
        AnomalyKind::Cache
    );
    // Application Support / Containers hold real state: app data.
    assert_eq!(
        classify("/Users/x/Library/Application Support/Slack", &home()),
        AnomalyKind::AppData
    );
    assert_eq!(
        classify("/Users/x/Library/Group Containers/2BBY.dev.warp", &home()),
        AnomalyKind::AppData
    );
}

#[test]
fn classification_knows_the_catalog() {
    assert_eq!(classify("/Users/x/.npm/_cacache", &home()), AnomalyKind::Cache);
    assert_eq!(classify("/Users/x/.npm", &home()), AnomalyKind::Cache);
    assert_eq!(classify("/Users/x/.npmrc", &home()), AnomalyKind::AppData);
    assert_eq!(classify("/Users/y/.npm", &home()), AnomalyKind::AppData);
    assert_eq!(classify("/Users/x/Library/pnpm/store", &home()), AnomalyKind::AppData);
    assert_eq!(classify("/a/Caches", &None), AnomalyKind::Cache);
    assert_eq!(classify("/a/MyCaches/b", &None), AnomalyKind::AppData);
}

#[test]
fn severity_tracks_kind_not_ratio() {
    // A huge cache is still only informational: it's safe and expected.
    assert_eq!(severity_for(AnomalyKind::Cache, 20 * GB), Severity::Info);
    // App data escalates with size: the real signal.
    assert_eq!(
        severity_for(AnomalyKind::AppData, 20 * GB),
        Severity::Critical
    );
    assert_eq!(severity_for(AnomalyKind::AppData, 3 * GB), Severity::Warn);
    assert_eq!(severity_for(AnomalyKind::AppData, 500 * MB), Severity::Info);
    assert_eq!(severity_for(AnomalyKind::AppData, 10 * GB), Severity::Critical);
    assert_eq!(severity_for(AnomalyKind::AppData, 10 * GB - 1), Severity::Warn);
    assert_eq!(severity_for(AnomalyKind::AppData, 2 * GB - 1), Severity::Info);
}

fn sized(sizes: &[u64]) -> Vec<SizedDir> {
    sizes.iter().map(|b| SizedDir { path: String::new(), bytes: *b }).collect()
}

#[test]
fn medians() {
    assert_eq!(median_bytes(&sized(&[])), 0);
    assert_eq!(median_bytes(&sized(&[7])), 7);
    assert_eq!(median_bytes(&sized(&[9, 1, 5])), 5);
    assert_eq!(median_bytes(&sized(&[9, 1, 5, 4])), 4, "the mean of 4 and 5, rounded down");
    assert_eq!(median_bytes(&sized(&[u64::MAX, u64::MAX])), u64::MAX);
}

#[test]
fn zones_are_searched_and_ranked() {
    let zones = default_zones();
    assert_eq!(zones.len(), 6);
    assert_eq!(zones[2].path, "~/Library/Caches");
    let mut containers: Vec<Vec<Container>> = Vec::new();
    for zone in &zones {
        let mut here = Vec::new();
        if zone.name == "User caches" {
            here.push(Container {
                path: "/Users/x/Library/Caches".into(),
                entries: vec![dir("a", vec![]), dir("b", vec![]), dir("c", vec![file("f", 600 * MB)])],
            });
        }
        if zone.name == "Application Support" {
            here.push(Container {
                path: "/Users/x/Library/Application Support".into(),
                entries: vec![dir("p", vec![]), dir("q", vec![file("f", 3 * GB)]), dir("r", vec![file("f", 900 * MB)])],
            });
        }
        containers.push(here);
    }
    let found = detect_anomalies(&zones, &containers, &home());
    // 900 MB is below the zone's floor of 1000 MB, and its median is 900 MB.
    let names: Vec<(&str, &str)> = found.iter().map(|a| (a.zone.as_str(), a.name.as_str())).collect();
    assert_eq!(names, vec![("User caches", "c")]);
    let all = zone_children(&zones, &containers);
    assert_eq!(all.len(), 6);
    assert_eq!(all[2].zone, "User caches");
    assert_eq!(all[2].path, "/Users/x/Library/Caches/c");
    assert_eq!(all[2].bytes, 600 * MB);
}

fn snap(taken: u64, entries: &[(&str, u64)]) -> Snapshot {
    let mut sizes: Vec<FolderSize> = entries
        .iter()
        .map(|(p, b)| FolderSize { path: p.to_string(), bytes: *b })
        .collect();
    sizes.sort_by(|a, b| a.path.cmp(&b.path));
    Snapshot { taken, sizes }
}

#[test]
fn flags_big_fast_growth_not_small_ticks() {
    let day = 86_400;
    let prev = snap(
        0,
        &[
            ("/Users/x/Library/Application Support/Slack", 2 * GB),
            ("/Users/x/Library/Caches/steady", 10 * GB),
        ],
    );
    let current = snap(
        3 * day,
        &[
            ("/Users/x/Library/Application Support/Slack", 20 * GB), // +18 GB, +900%
            ("/Users/x/Library/Caches/steady", 10 * GB + 100 * MB), // +100 MB, +1%: below floor+pct
        ],
    );
    let g = compute_growth(&prev, &current, &home());
    assert_eq!(g.len(), 1, "only the big + fast grower is flagged");
    assert_eq!(g[0].name, "Slack");
    assert_eq!(g[0].kind, AnomalyKind::AppData);
    assert!(!g[0].is_new);
    let days = g[0].seconds as f64 / 86_400.0;
    assert!((days - 3.0).abs() < 0.001);
    assert_eq!(g[0].delta, 18 * GB);
    let growth = g[0].growth.unwrap();
    assert_eq!(growth.part as f64 / growth.whole as f64 * 100.0, 900.0);
}

#[test]
fn flags_new_large_folder() {
    let prev = snap(0, &[("/Users/x/Library/Caches/old", MB)]);
    let current = snap(
        86_400,
        &[
            ("/Users/x/Library/Caches/old", MB),
            ("/Users/x/Library/Application Support/Leak", 3 * GB), // new, 3 GB
        ],
    );
    let g = compute_growth(&prev, &current, &home());
    assert_eq!(g.len(), 1);
    assert!(g[0].is_new);
    assert_eq!(g[0].name, "Leak");
    assert_eq!(g[0].previous, None);
}

#[test]
fn small_new_folder_not_flagged() {
    let prev = snap(0, &[]);
    let current = snap(86_400, &[("/Users/x/Library/Caches/tiny", 10 * MB)]);
    assert!(compute_growth(&prev, &current, &home()).is_empty());
}

#[test]
fn growth_needs_both_the_floor_and_a_quarter() {
    let grow = |p: u64, c: u64| {
        compute_growth(&snap(0, &[("/a/b", p)]), &snap(1, &[("/a/b", c)]), &None).len()
    };
    assert_eq!(grow(2000 * MB, 2500 * MB), 1, "exactly a quarter and the floor");
    assert_eq!(grow(2000 * MB, 2500 * MB - 1), 0, "below the floor");
    assert_eq!(grow(2001 * MB, 2501 * MB), 0, "below a quarter");
    assert_eq!(grow(0, 500 * MB), 1, "from nothing");
    assert_eq!(grow(3 * GB, 2 * GB), 0, "shrinking");
    let clock_went_back = compute_growth(&snap(9, &[]), &snap(3, &[("/a", GB)]), &None);
    assert_eq!(clock_went_back[0].seconds, 0);
}

#[test]
fn growth_is_ranked_and_ties_keep_path_order() {
    let current = snap(1, &[("/z", GB), ("/a", GB), ("/m", 2 * GB)]);
    let g = compute_growth(&snap(0, &[]), &current, &None);
    let names: Vec<&str> = g.iter().map(|e| e.name.as_str()).collect();
    assert_eq!(names, vec!["m", "a", "z"]);
    let root = compute_growth(&snap(0, &[]), &snap(1, &[("/", GB)]), &None);
    assert_eq!(root[0].name, "/", "a path without a name is shown whole");
}

#[test]
fn a_snapshot_does_not_grow_against_itself() {
    let s = snap(5, &[("/a", 9 * GB), ("/b", GB)]);
    assert!(compute_growth(&s, &s, &None).is_empty());
}

#[test]
fn snapshots_keep_the_last_size_of_a_path() {
    let zones = default_zones();
    let mut containers: Vec<Vec<Container>> = zones.iter().map(|_| Vec::new()).collect();
    containers[0].push(Container { path: "/t".into(), entries: vec![dir("z", vec![file("f", 1)]), dir("a", vec![file("f", 2)])] });
    containers[1].push(Container { path: "/t".into(), entries: vec![dir("z", vec![file("f", 7)])] });
    let s = snapshot_now(42, &zone_children(&zones, &containers));
    assert_eq!(s.taken, 42);
    let sizes: Vec<(&str, u64)> = s.sizes.iter().map(|e| (e.path.as_str(), e.bytes)).collect();
    assert_eq!(sizes, vec![("/t/a", 2), ("/t/z", 7)]);
    assert_eq!(lookup_size(&s.sizes, "/t/z"), Some(7));
    assert_eq!(lookup_size(&s.sizes, "/t/q"), None);
}

#[test]
fn history_is_rolled() {
    let mut history: Vec<Snapshot> = Vec::new();
    for taken in 0..35u64 {
        let (report, next) = record_and_compare(history, snap(taken, &[("/a", GB)]), &None);
        assert_eq!(report.now, taken);
        assert_eq!(report.baseline_only, taken == 0);
        assert_eq!(report.previous_at, taken.checked_sub(1));
        assert!(report.entries.is_empty());
        assert_eq!(next.last().unwrap().taken, taken);
        history = next;
    }
    assert_eq!(history.len(), 30);
    assert_eq!(history[0].taken, 5);
    let (report, _) = record_and_compare(history, snap(99, &[("/a", 3 * GB)]), &None);
    assert_eq!(report.entries.len(), 1);
    assert_eq!(history_path(&home()).unwrap(), "/Users/x/.deepscan/history.json");
    assert_eq!(history_path(&None), None);
}

fn sample() -> Vec<Baseline> {
    vec![
        Baseline {
            name: "Slack".into(),
            zone: "Application Support".into(),
            typical_mb: 800,
            observations: one(),
            note: Some("Electron app data".into()),
        },
        Baseline {
            name: "com.spotify.client".into(),
            zone: "User caches".into(),
            typical_mb: 900,
            observations: 4,
            note: None,
        },
    ]
}

#[test]
fn lookup_is_case_insensitive_and_zone_scoped() {
    let b = sample();
    assert!(lookup_baseline(&b, "slack", "Application Support").is_some());
    assert!(
        lookup_baseline(&b, "Slack", "User caches").is_none(),
        "zone must match too"
    );
    assert!(lookup_baseline(&b, "Unknown", "Application Support").is_none());
}

#[test]
fn flags_only_well_above_typical() {
    let b = sample();
    let spotify = lookup_baseline(&b, "com.spotify.client", "User caches").unwrap();
    // 9000 MB against a 900 MB typical: 10×
    let r = baseline_ratio(9000 * MB, spotify).unwrap();
    let ratio = r.part as f64 / r.whole as f64;
    assert!((ratio - 10.0).abs() < 0.01);
    assert!(is_above_typical(9000 * MB, spotify));
    // 1800 MB against 900 MB: 2×, big-ish, but normal for this app.
    assert!(!is_above_typical(1800 * MB, spotify));
    assert!(is_above_typical(2700 * MB, spotify), "three times");
    assert!(!is_above_typical(2700 * MB - 1, spotify));
}

#[test]
fn single_observation_never_flags() {
    let b = sample();
    let slack = lookup_baseline(&b, "Slack", "Application Support").unwrap();
    assert_eq!(slack.observations, 1);
    assert!(!is_usable(slack));
    // 20 GB vs an 800 MB "typical" is 25.6×, but one machine can't judge.
    let r = baseline_ratio(20 * 1024 * MB, slack).unwrap();
    assert!(r.part as f64 / r.whole as f64 > 3.0);
    assert!(
        !is_above_typical(20 * 1024 * MB, slack),
        "1 obs must not flag"
    );
    let spotify = lookup_baseline(&b, "com.spotify.client", "User caches").unwrap();
    assert_eq!(spotify.observations, 4);
    assert!(is_usable(spotify));
    assert!(is_above_typical(10 * 1024 * MB, spotify), "4 obs may flag");
}

#[test]
fn a_baseline_of_nothing_has_no_ratio() {
    let none = Baseline { name: "n".into(), zone: "z".into(), typical_mb: 0, observations: 9, note: None };
    assert!(baseline_ratio(5, &none).is_none());
    assert!(!is_above_typical(u64::MAX, &none));
    let three = Baseline { name: "n".into(), zone: "z".into(), typical_mb: 1, observations: 3, note: None };
    assert!(is_usable(&three));
    let huge = Baseline { name: "n".into(), zone: "z".into(), typical_mb: u64::MAX, observations: 3, note: None };
    assert_eq!(baseline_ratio(1, &huge).unwrap().whole, u64::MAX);
}

#[test]
fn baseline_zones_exist() {
    let zones: Vec<&str> = default_zones().iter().map(|z| z.name).collect();
    assert!(sample().iter().all(|b| zones.contains(&b.zone.as_str())));
}

/// Byte sizes as floating point prints them.
fn float_human(bytes: u64) -> String {
    const UNITS: [&str; 6] = ["B", "KB", "MB", "GB", "TB", "PB"];
    let mut value = bytes as f64;
    let mut unit = 0;
    while value >= 1024.0 && unit < UNITS.len() - 1 {
        value /= 1024.0;
        unit += 1;
    }
    if unit == 0 {
        format!("{} {}", bytes, UNITS[unit])
    } else {
        format!("{:.1} {}", value, UNITS[unit])
    }
}

fn samples() -> Vec<u64> {
    let mut out = vec![0, 1, u64::MAX, u64::MAX - 1];
    let mut x: u64 = 0x9E37_79B9_7F4A_7C15;
    for i in 0..4000u64 {
        x ^= x << 13;
        x ^= x >> 7;
        x ^= x << 17;
        out.push(x >> (i % 64));
    }
    for k in 0..64 {
        let p = 1u64 << k;
        for d in 0..4u64 {
            out.push(p.saturating_add(d));
            out.push(p.saturating_sub(d));
            out.push((p / 20).saturating_mul(d));
        }
    }
    out
}

#[test]
fn bars_fill_as_floating_point_says() {
    assert_eq!(full_columns(0, 1, 14), 0);
    assert_eq!(full_columns(1, 1, 14), 14);
    assert_eq!(full_columns(1, 4, 16), 4);
    assert_eq!(full_columns(1, 28, 14), 1, "a half goes up");
    assert_eq!(full_columns(u64::MAX, u64::MAX, 16), 16);
    let all = samples();
    for (i, n) in all.iter().enumerate() {
        for k in 0..8 {
            let m = all[(i * 31 + k * 977) % all.len()];
            let (a, b) = if *n <= m { (*n, m) } else { (m, *n) };
            if b == 0 {
                continue;
            }
            for width in [14usize, 16] {
                let float = (((a as f64 / b as f64) * width as f64).round() as usize).min(width);
                assert_eq!(full_columns(a, b, width), float, "{a} of {b} in {width}");
            }
        }
    }
    // Around every step of the bar.
    for m in [28u64, 32, 1 << 20, 1000003 * 28, (1 << 60) + 28, u64::MAX] {
        for width in [14usize, 16] {
            for step in 0..=(2 * width as u128) {
                let near = (m as u128 * step / (2 * width as u128)) as u64;
                for d in 0..3u64 {
                    for a in [near.saturating_sub(d), near.saturating_add(d).min(m)] {
                        let float =
                            (((a as f64 / m as f64) * width as f64).round() as usize).min(width);
                        assert_eq!(full_columns(a, m, width), float, "{a} of {m} in {width}");
                    }
                }
            }
        }
    }
}

#[test]
fn human_sizes() {
    assert_eq!(human(0), "0 B");
    assert_eq!(human(1023), "1023 B");
    assert_eq!(human(1024), "1.0 KB");
    assert_eq!(human(1536), "1.5 KB");
    assert_eq!(human(173_301_973_811), "161.4 GB");
    assert_eq!(human(1024 * 1024 - 1), "1024.0 KB");
    assert_eq!(human(u64::MAX), "16384.0 PB");
    assert_eq!(human(1024 + 256), "1.2 KB", "a half goes to the even digit");
    assert_eq!(human(1024 + 768), "1.8 KB", "a half goes to the even digit");
    for n in samples() {
        assert_eq!(human(n), float_human(n), "{n}");
    }
}

#[test]
fn doubles_in_integers() {
    assert_eq!(nearest_of(9_007_199_254_740_993), 9_007_199_254_740_992);
    assert_eq!(nearest_of(9_007_199_254_740_995), 9_007_199_254_740_996);
    assert_eq!(round_div(5, 2), 2);
    assert_eq!(round_div(7, 2), 4);
    let all = samples();
    for n in &all {
        assert_eq!(nearest_of(*n as u128), (*n as f64) as u128, "{n}");
    }
    for (i, a) in all.iter().enumerate() {
        let m = all[(i * 7 + 3) % all.len()].max(1);
        for m in [m, a / 10, a / 3, a / 2, a.saturating_mul(4), a / 10 + 1, a / 3 + 1] {
            let m = m.max(1);
            let q = *a as f64 / m as f64;
            assert_eq!(reaches(*a, m, Threshold::Quarter), q >= 0.25, "{a} {m}");
            assert_eq!(reaches(*a, m, Threshold::Two), q >= 2.0, "{a} {m}");
            assert_eq!(reaches(*a, m, Threshold::Three), q >= 3.0, "{a} {m}");
            assert_eq!(reaches(*a, m, Threshold::Ten), q >= 10.0, "{a} {m}");
            assert_eq!(is_ten_times(*a, m), *a as f64 >= 10.0 * m as f64, "{a} {m}");
        }
    }
}

#[test]
fn paths_agree_with_the_standard_library() {
    let all = [
        "", "/", "//", ".", "./", "..", "/.", "/..", "a", "a/", "a/b", "./a", "a/./b", "a//b",
        "/a", "/a/", "/a/b", "/a/../b", "/a/./b", "//a//b//", "a/..", "/Users/x/.npm", "x.app",
        "/Applications/Docker.app", ".hidden", "/a/.hidden", "a.tar.gz", "a.", "/a/b.c/", "..a",
        "/a/...", "a/. /b", "/é/ü.ö",
    ];
    for a in all {
        let p = Path::new(a);
        assert_eq!(is_absolute(a), p.is_absolute(), "{a}");
        let parts: Vec<String> = p
            .components()
            .map(|c| c.as_os_str().to_str().unwrap().to_string())
            .collect();
        assert_eq!(components_of(a), parts, "{a}");
        assert_eq!(file_name(a).as_deref(), p.file_name().and_then(|s| s.to_str()), "{a}");
        assert_eq!(file_stem(a).as_deref(), p.file_stem().and_then(|s| s.to_str()), "{a}");
        assert_eq!(extension(a).as_deref(), p.extension().and_then(|s| s.to_str()), "{a}");
        for b in all {
            let q = Path::new(b);
            assert_eq!(is_same_path(a, b), p == q, "{a} {b}");
            assert_eq!(is_under(a, b), p.starts_with(q), "{a} {b}");
            assert_eq!(join_path(a, b), p.join(q).to_str().unwrap(), "{a} {b}");
            assert_eq!(has_part(a, b), parts.iter().any(|c| c == b), "{a} {b}");
        }
    }
}

#[test]
fn tilde_and_variables_expand() {
    let vars = vec![
        Var { name: "TMPDIR".into(), value: "/var/folders/q/T/".into() },
        Var { name: "HOMEISH".into(), value: "~/x".into() },
    ];
    assert_eq!(expand_tilde("~/Library", &home()), "/Users/x/Library");
    assert_eq!(expand_tilde("~", &home()), "/Users/x");
    assert_eq!(expand_tilde("~other/Library", &home()), "~other/Library");
    assert_eq!(expand_tilde("a/~", &home()), "a/~");
    assert_eq!(expand_tilde("~/a", &None), "~/a");
    assert_eq!(expand_paths("$TMPDIR", &home(), &vars), "/var/folders/q/T/");
    assert_eq!(expand_paths("~/a/${TMPDIR}b", &home(), &vars), "/Users/x/a//var/folders/q/T/b");
    assert_eq!(expand_paths("$HOMEISH", &home(), &vars), "~/x", "a tilde out of a variable stays");
    assert_eq!(expand_paths("~/$UNSET/a", &home(), &vars), "~/$UNSET/a", "unset: left as it is");
    assert_eq!(expand_paths("/private/var/folders/*/*/C", &home(), &vars), "/private/var/folders/*/*/C");
    assert_eq!(lookup_var(&vars, "TMPDIR"), Ok(Some("/var/folders/q/T/".to_string())));
    assert_eq!(lookup_var(&vars, "NOPE"), Err(()));
    assert_eq!(expansion_or("p", None), "p");
    assert_eq!(expansion_or("p", Some("e".into())), "e");
}

#[test]
fn sizes_add_up_and_links_count_nothing() {
    let node = Node::Dir(vec![
        file("a", 3),
        Entry { name: "link".into(), node: Node::Other },
        dir("d", vec![file("b", 4), dir("e", vec![])]),
    ]);
    assert_eq!(measure_path(&node), 7);
    assert_eq!(measure_path(&Node::File(9)), 9);
    assert_eq!(measure_path(&Node::Other), 0);
    let too_much = Node::Dir(vec![file("a", u64::MAX), file("b", 1)]);
    assert_eq!(checked_measure(&too_much), None);
    assert_eq!(checked_measure(&node), Some(7));
    assert_eq!(checked_total(&vec![u64::MAX, 1]), None);
    assert_eq!(checked_total(&vec![4, 5]), Some(9));
    assert_eq!(mb_bytes(3), 3 * MB);
    assert_eq!(mb_bytes(u64::MAX), u64::MAX);
}

#[test]
fn children_and_trees_are_ranked() {
    let entries = vec![file("s", 1), dir("d", vec![file("x", 2), file("y", 7)]), file("t", 1)];
    let (total, children) = scan_children("/r/", &entries);
    assert_eq!(total, 11);
    let got: Vec<(&str, &str, u64)> = children
        .iter()
        .map(|c| (c.name.as_str(), c.path.as_str(), c.bytes))
        .collect();
    assert_eq!(got, vec![("d", "/r/d", 9), ("s", "/r/s", 1), ("t", "/r/t", 1)]);
    let tree = build_tree("r", &Node::Dir(entries), 2);
    assert_eq!(tree.name, "r");
    assert_eq!(tree.bytes, 11);
    assert_eq!(tree.children[0].children[0].name, "y");
    assert_eq!(tree.children[0].children[1].bytes, 2);
    assert!(tree.children[1].children.is_empty());
}

#[test]
fn matching_files_are_counted() {
    let node = Node::Dir(vec![
        file("CFNetworkDownload_1.tmp", 1),
        file("other.tmp", 1),
        dir("CFNetworkDownload_dir.tmp", vec![file("CFNetworkDownload_2.tmp", 1)]),
        Entry { name: "CFNetworkDownload_3.tmp".into(), node: Node::Other },
    ]);
    assert_eq!(count_matching_files(&node, "CFNetworkDownload_*.tmp"), 2);
    assert_eq!(count_matching_files(&node, "*"), 3);
    assert_eq!(count_matching_files(&node, "none"), 0);
    assert_eq!(count_matching_files(&node, "[bad"), 0);
    assert!(is_pattern("*.tmp"));
    assert!(!is_pattern("[bad"));
}

fn signature(baseline_mb: u64, severity: Option<&str>) -> Signature {
    Signature {
        name: "leak".into(),
        description: "d".into(),
        path: "~/x".into(),
        file_pattern: Some("*.tmp".into()),
        owner: Some("idleassetsd".into()),
        baseline_mb,
        severity: severity.map(|s| s.to_string()),
        root_cause: None,
        prevention: Some("p".into()),
        safe_delete: None,
    }
}

fn hit(path: &str, len: u64) -> Hit {
    Hit { path: path.into(), node: Node::Dir(vec![file("a.tmp", len), file("b", 0)]) }
}

#[test]
fn signatures_fire_above_their_baseline() {
    let findings = evaluate_signatures(
        &vec![signature(1, None)],
        &vec![vec![hit("/at", MB), hit("/above", MB + 1), hit("/twice", 2 * MB), hit("/tenfold", 10 * MB)]],
    );
    let got: Vec<(&str, Severity)> = findings.iter().map(|f| (f.path.as_str(), f.severity)).collect();
    assert_eq!(
        got,
        vec![
            ("/tenfold", Severity::Critical),
            ("/twice", Severity::Warn),
            ("/above", Severity::Info),
        ]
    );
    assert_eq!(findings[0].safe_delete, "rm -rf \"/tenfold\"");
    assert_eq!(findings[0].file_matches, Some(1));
    assert_eq!(findings[0].baseline_bytes, MB);
    assert_eq!(findings[0].owner.as_deref(), Some("idleassetsd"));
    assert_eq!(findings[0].root_cause, None);
    assert_eq!(findings[0].prevention.as_deref(), Some("p"));
}

#[test]
fn a_named_severity_stands() {
    let level = |name: &str| {
        evaluate_signatures(&vec![signature(1, Some(name))], &vec![vec![hit("/a", 50 * MB)]])[0].severity
    };
    assert_eq!(level("info"), Severity::Info);
    assert_eq!(level("Warning"), Severity::Warn);
    assert_eq!(level("WARN"), Severity::Warn);
    assert_eq!(level("crit"), Severity::Critical);
    assert_eq!(level("CRITICAL"), Severity::Critical);
    assert_eq!(level("whatever"), Severity::Critical, "unknown: by size");
}

#[test]
fn signature_patterns_may_be_missing_or_broken() {
    let mut broken = signature(0, None);
    broken.file_pattern = Some("[".into());
    broken.safe_delete = Some("sudo rm x".into());
    let mut missing = signature(0, None);
    missing.file_pattern = None;
    let findings = evaluate_signatures(
        &vec![broken, missing],
        &vec![vec![hit("/a", 5)], vec![hit("/b", 4)]],
    );
    assert_eq!(findings[0].file_matches, None);
    assert_eq!(findings[0].safe_delete, "sudo rm x");
    assert_eq!(findings[1].file_matches, None);
    assert_eq!(findings[1].severity, Severity::Warn, "four bytes over a baseline of none");
}

#[test]
fn highest_severity() {
    assert_eq!(max_severity(&vec![]), None);
    assert_eq!(max_severity(&vec![Severity::Info, Severity::Critical, Severity::Warn]), Some(Severity::Critical));
    assert_eq!(max_severity(&vec![Severity::Warn, Severity::Info]), Some(Severity::Warn));
}

#[test]
fn disk_accounting() {
    let stats = VolumeStats { block_size: 4096, blocks: 100, free_blocks: 30, available_blocks: 20 };
    let d = disk_space("/", stats);
    assert_eq!((d.total, d.used, d.free), (409_600, 286_720, 81_920));
    let odd = VolumeStats { block_size: 2, blocks: 1, free_blocks: 5, available_blocks: 0 };
    assert_eq!(disk_space("/", odd).used, 0);
}

#[test]
fn snapshots_are_listed() {
    let output = "Snapshots for disk /:\n  com.apple.TimeMachine.2024-01-01.local\r\n\ncom.apple.os.update\nother\n";
    let names = local_snapshots(output);
    assert_eq!(names, vec!["com.apple.TimeMachine.2024-01-01.local", "com.apple.os.update"]);
    let report = space_report(None, names);
    assert_eq!(
        report.reclaim_snapshots.as_deref(),
        Some("sudo tmutil thinlocalsnapshots / 999999999999 4")
    );
    assert!(local_snapshots("").is_empty());
    assert_eq!(space_report(None, Vec::new()).reclaim_snapshots, None);
}
