//! Biggest same-class folders, honestly classified.
//!
//! In a "zone" full of same-class sibling directories (caches, per-bundle temp dirs, app
//! containers) the heavy children stand out. The honest signal is what kind of folder it is,
//! not how often it holds the sibling median:
//!   - [`AnomalyKind::Cache`]: regenerable, safe to clear. Expected to be big, never alarming.
//!   - [`AnomalyKind::AppData`]: real app state. A large unexplained one is worth a look, so
//!     severity scales with size.

use vstd::prelude::*;

use crate::catalog;
use crate::catalog::{default_catalog, CatalogEntry};
use crate::double;
use crate::double::is_ten_times;
use crate::expand::expand_tilde;
use crate::order;
use crate::order::{sort_by_view, sort_stably};
use crate::path;
use crate::path::{file_name, has_part, is_under, join_path};
use crate::report;
use crate::report::{mb_bytes, Ratio, Severity, GB};
use crate::scan;
use crate::scan::{measure_path, Entry, Node};
use crate::text;
use crate::text::{contains_text, same_text};

verus! {

/// What kind of heavy folder this is.
#[derive(Debug, Clone, Copy, PartialEq, Eq, Structural)]
pub enum AnomalyKind {
    /// A cache or per-user temp dir: regenerable, safe to clear.
    Cache,
    /// App state: real data, not auto-clearable.
    AppData,
}

/// A place where many same-class directories live.
#[derive(Debug, Clone, Copy)]
pub struct Zone {
    pub name: &'static str,
    /// Container whose immediate children are same-class dirs (`~`, `$VARS`, globs).
    pub path: &'static str,
    /// Floor (MB) below which a child is never flagged.
    pub min_flag_mb: u64,
}

/// What a zone says: its name, its path and its floor.
pub open spec fn zone_view(name: &str, path: &str, min_flag_mb: u64) -> (
    Seq<char>,
    Seq<char>,
    u64,
) {
    (name@, path@, min_flag_mb)
}

impl View for Zone {
    type V = (Seq<char>, Seq<char>, u64);

    open spec fn view(&self) -> (Seq<char>, Seq<char>, u64) {
        zone_view(self.name, self.path, self.min_flag_mb)
    }
}

/// The places leaks hide.
pub open spec fn zones() -> Seq<(Seq<char>, Seq<char>, u64)> {
    seq![
        zone_view("Per-user temp", "$TMPDIR", 200),
        zone_view("Per-user temp caches", "/private/var/folders/*/*/C", 200),
        zone_view("User caches", "~/Library/Caches", 500),
        zone_view("App containers", "~/Library/Containers", 2000),
        zone_view("Application Support", "~/Library/Application Support", 1000),
        zone_view("Group containers", "~/Library/Group Containers", 500),
    ]
}

/// Zones where many same-class directories live.
pub fn default_zones() -> (r: Vec<Zone>)
    ensures
        order::views(r@) == zones(),
{
    let r = vec![
        Zone { name: "Per-user temp", path: "$TMPDIR", min_flag_mb: 200 },
        Zone {
            name: "Per-user temp caches",
            path: "/private/var/folders/*/*/C",
            min_flag_mb: 200,
        },
        Zone { name: "User caches", path: "~/Library/Caches", min_flag_mb: 500 },
        Zone { name: "App containers", path: "~/Library/Containers", min_flag_mb: 2000 },
        Zone {
            name: "Application Support",
            path: "~/Library/Application Support",
            min_flag_mb: 1000,
        },
        Zone { name: "Group containers", path: "~/Library/Group Containers", min_flag_mb: 500 },
    ];
    assert(order::views(r@) =~= zones());
    r
}

/// A folder that stands out.
#[derive(Debug)]
pub struct Anomaly {
    pub zone: String,
    pub name: String,
    pub path: String,
    pub bytes: u64,
    /// Cache (safe to clear) or app data (review).
    pub kind: AnomalyKind,
    pub median_bytes: u64,
    /// Size relative to the sibling median, for reference only. `None` when the median is 0.
    pub ratio: Option<Ratio>,
    pub siblings: usize,
    pub severity: Severity,
}

/// What an anomaly says.
pub struct AnomalyView {
    pub zone: Seq<char>,
    pub name: Seq<char>,
    pub path: Seq<char>,
    pub bytes: nat,
    pub kind: AnomalyKind,
    pub median_bytes: nat,
    pub ratio: Option<Ratio>,
    pub siblings: nat,
    pub severity: Severity,
}

impl View for Anomaly {
    type V = AnomalyView;

    open spec fn view(&self) -> AnomalyView {
        AnomalyView {
            zone: self.zone@,
            name: self.name@,
            path: self.path@,
            bytes: self.bytes as nat,
            kind: self.kind,
            median_bytes: self.median_bytes as nat,
            ratio: self.ratio,
            siblings: self.siblings as nat,
            severity: self.severity,
        }
    }
}

/// Whether a catalog entry is a cache, safe to clear, that covers `at`.
pub open spec fn covers(entry: catalog::EntryView, at: Seq<char>, home: Option<Seq<char>>) -> bool {
    entry.safe_auto && entry.category == "cache"@ && path::under(
        at,
        catalog::location(entry, home),
    )
}

/// Whether `at` is regenerable: in a known cache or temp location, or covered by the catalog.
pub open spec fn reclaimable_cache(at: Seq<char>, home: Option<Seq<char>>) -> bool {
    ||| text::occurs(at, "/Library/Caches/"@)
    ||| text::occurs(at, "/var/folders/"@)
    ||| path::has_component(at, "Caches"@)
    ||| exists|i: int|
        0 <= i < catalog::catalog().len() && covers(#[trigger] catalog::catalog()[i], at, home)
}

/// The kind of the folder at a path.
pub open spec fn kind_of(at: Seq<char>, home: Option<Seq<char>>) -> AnomalyKind {
    if reclaimable_cache(at, home) { AnomalyKind::Cache } else { AnomalyKind::AppData }
}

/// Cache (regenerable, safe to clear) or real app data, decided from the path: a known cache
/// or temp location, or a safe cache entry in the reclaimable catalog, is a cache; everything
/// else is app data worth reviewing.
pub fn classify(at: &str, home: &Option<String>) -> (r: AnomalyKind)
    ensures
        r == kind_of(at@, text::opt_text(*home)),
{
    if is_reclaimable_cache(at, home) {
        AnomalyKind::Cache
    } else {
        AnomalyKind::AppData
    }
}

/// Whether the folder at a path is regenerable.
pub fn is_reclaimable_cache(at: &str, home: &Option<String>) -> (r: bool)
    ensures
        r == reclaimable_cache(at@, text::opt_text(*home)),
{
    let ghost h = text::opt_text(*home);
    if contains_text(at, "/Library/Caches/") || contains_text(at, "/var/folders/") || has_part(
        at,
        "Caches",
    ) {
        return true;
    }
    let entries: Vec<CatalogEntry> = default_catalog();
    let mut i: usize = 0;
    while i < entries.len()
        invariant
            i <= entries@.len(),
            order::views(entries@) == catalog::catalog(),
            h == text::opt_text(*home),
            forall|j: int| 0 <= j < i ==> !covers(#[trigger] catalog::catalog()[j], at@, h),
        decreases entries@.len() - i,
    {
        let e = entries[i];
        assert(catalog::catalog()[i as int] == e@);
        if e.safe_auto && same_text(e.category, "cache") {
            let root = expand_tilde(e.path, home);
            if is_under(at, root.as_str()) {
                return true;
            }
        }
        i += 1;
    }
    assert(catalog::catalog().len() == entries@.len());
    false
}

/// A child directory with its size.
#[derive(Debug)]
pub struct SizedDir {
    pub path: String,
    pub bytes: u64,
}

impl View for SizedDir {
    type V = (Seq<char>, nat);

    open spec fn view(&self) -> (Seq<char>, nat) {
        (self.path@, self.bytes as nat)
    }
}

/// The directories among the entries of a container, with their sizes.
pub open spec fn dirs_of(container: Seq<char>, entries: Seq<Entry>) -> Seq<(Seq<char>, nat)>
    decreases entries.len(),
{
    if entries.len() == 0 {
        Seq::empty()
    } else {
        let rest = dirs_of(container, entries.drop_last());
        let e = entries.last();
        if e.node is Dir {
            rest.push((path::joined_path(container, e.name@), scan::bytes_of(e.node)))
        } else {
            rest
        }
    }
}

/// Sizes the child directories of a container; files and symlinks are skipped.
pub fn sized_children(container: &str, entries: &Vec<Entry>) -> (r: Vec<SizedDir>)
    requires
        scan::bytes_of_all(entries@) <= u64::MAX,
    ensures
        order::views(r@) == dirs_of(container@, entries@),
{
    let mut r: Vec<SizedDir> = Vec::new();
    let mut i: usize = 0;
    assert(entries@.take(0) =~= Seq::<Entry>::empty());
    assert(order::views(r@) =~= Seq::<(Seq<char>, nat)>::empty());
    while i < entries.len()
        invariant
            i <= entries@.len(),
            scan::bytes_of_all(entries@) <= u64::MAX,
            order::views(r@) == dirs_of(container@, entries@.take(i as int)),
        decreases entries@.len() - i,
    {
        proof {
            assert(entries@.take(i + 1).drop_last() =~= entries@.take(i as int));
            assert(entries@.take(i + 1).last() == entries@[i as int]);
            scan::lemma_entry_bytes(entries@, i as int);
        }
        match &entries[i].node {
            Node::Dir(_) => {
                let d = SizedDir {
                    path: join_path(container, entries[i].name.as_str()),
                    bytes: measure_path(&entries[i].node),
                };
                proof {
                    order::lemma_views_push(r@, d);
                }
                r.push(d);
            },
            _ => {},
        }
        i += 1;
    }
    assert(entries@.take(entries@.len() as int) =~= entries@);
    r
}

/// Smallest first.
pub open spec fn smaller() -> spec_fn(u64, u64) -> bool {
    |a: u64, b: u64| a < b
}

/// The middle of a list of sizes: of an even number the mean of the two in the middle,
/// rounded down.
pub open spec fn median(sizes: Seq<u64>) -> nat {
    let s = order::ordered(sizes, smaller());
    let n = sizes.len() as int;
    if n == 0 {
        0
    } else if n % 2 == 1 {
        s[n / 2] as nat
    } else {
        ((s[n / 2 - 1] + s[n / 2]) / 2) as nat
    }
}

/// The sizes of a list of directories.
pub open spec fn sizes_of(dirs: Seq<(Seq<char>, nat)>) -> Seq<u64> {
    Seq::new(dirs.len(), |i: int| dirs[i].1 as u64)
}

fn is_smaller(a: &u64, b: &u64) -> (r: bool)
    ensures
        r == (*a < *b),
{
    *a < *b
}

/// The median size of a list of directories.
pub fn median_bytes(children: &Vec<SizedDir>) -> (r: u64)
    ensures
        r == median(sizes_of(order::views(children@))),
{
    let mut sizes: Vec<u64> = Vec::new();
    let mut i: usize = 0;
    let ghost all = sizes_of(order::views(children@));
    while i < children.len()
        invariant
            i <= children@.len(),
            all == sizes_of(order::views(children@)),
            sizes@ == all.take(i as int),
        decreases children@.len() - i,
    {
        sizes.push(children[i].bytes);
        assert(all.take(i + 1) =~= all.take(i as int).push(children@[i as int].bytes));
        i += 1;
    }
    assert(all.take(all.len() as int) =~= all);
    let n = sizes.len();
    if n == 0 {
        return 0;
    }
    let s = sort_stably(sizes, is_smaller, Ghost(smaller()));
    proof {
        order::lemma_ordered_len(all, smaller());
    }
    if n % 2 == 1 {
        s[n / 2]
    } else {
        let a = s[n / 2 - 1] as u128;
        let b = s[n / 2] as u128;
        ((a + b) / 2) as u64
    }
}

/// Severity from what the folder is: a cache is never more than informational, app data
/// escalates with size.
pub open spec fn severity_of(kind: AnomalyKind, bytes: nat) -> Severity {
    match kind {
        AnomalyKind::Cache => Severity::Info,
        AnomalyKind::AppData => if bytes >= 10 * GB {
            Severity::Critical
        } else if bytes >= 2 * GB {
            Severity::Warn
        } else {
            Severity::Info
        },
    }
}

/// The severity of a folder of that kind and size.
pub fn severity_for(kind: AnomalyKind, bytes: u64) -> (r: Severity)
    ensures
        r == severity_of(kind, bytes as nat),
{
    match kind {
        AnomalyKind::Cache => Severity::Info,
        AnomalyKind::AppData => if bytes >= 10 * GB {
            Severity::Critical
        } else if bytes >= 2 * GB {
            Severity::Warn
        } else {
            Severity::Info
        },
    }
}

/// However large, a cache is never more than informational.
pub proof fn caches_never_alarm(bytes: nat)
    ensures
        severity_of(AnomalyKind::Cache, bytes) == Severity::Info,
{
}

/// A larger folder of the same kind is never less severe.
pub proof fn severity_grows_with_size(kind: AnomalyKind, a: nat, b: nat)
    requires
        a <= b,
    ensures
        report::rank(severity_of(kind, a)) <= report::rank(severity_of(kind, b)),
{
}

/// Whether a child stands out: at or above the floor, and at least ten times the median
/// where that is not zero.
pub open spec fn stands_out(bytes: nat, med: nat, floor: nat) -> bool {
    bytes >= floor && (med == 0 || double::ten_times(bytes, med))
}

/// The name shown for a path: its last component, else nothing.
pub open spec fn shown_name(at: Seq<char>) -> Seq<char> {
    match path::file_name_of(at) {
        Some(n) => n,
        None => text::nil(),
    }
}

/// The anomaly for a child that stands out.
pub open spec fn anomaly_of(
    zone: Seq<char>,
    dir: (Seq<char>, nat),
    med: nat,
    siblings: nat,
    home: Option<Seq<char>>,
) -> AnomalyView {
    let kind = kind_of(dir.0, home);
    AnomalyView {
        zone,
        name: shown_name(dir.0),
        path: dir.0,
        bytes: dir.1,
        kind,
        median_bytes: med,
        ratio: if med == 0 {
            None
        } else {
            Some(Ratio { part: dir.1 as u64, whole: med as u64 })
        },
        siblings,
        severity: severity_of(kind, dir.1),
    }
}

/// The anomalies among the first children of a container.
pub open spec fn anomalies_among(
    zone: Seq<char>,
    dirs: Seq<(Seq<char>, nat)>,
    med: nat,
    siblings: nat,
    floor: nat,
    home: Option<Seq<char>>,
) -> Seq<AnomalyView>
    decreases dirs.len(),
{
    if dirs.len() == 0 {
        Seq::empty()
    } else {
        let rest = anomalies_among(zone, dirs.drop_last(), med, siblings, floor, home);
        if stands_out(dirs.last().1, med, floor) {
            rest.push(anomaly_of(zone, dirs.last(), med, siblings, home))
        } else {
            rest
        }
    }
}

/// The anomalies of a container: none without siblings to learn a median from.
pub open spec fn anomalies_in(
    zone: Seq<char>,
    dirs: Seq<(Seq<char>, nat)>,
    floor: nat,
    home: Option<Seq<char>>,
) -> Seq<AnomalyView> {
    if dirs.len() < 2 {
        Seq::empty()
    } else {
        anomalies_among(zone, dirs, median(sizes_of(dirs)), dirs.len(), floor, home)
    }
}

/// Flags size outliers among the child directories of the directory `container`.
pub fn analyze_container(
    zone: &str,
    container: &str,
    entries: &Vec<Entry>,
    floor: u64,
    home: &Option<String>,
) -> (r: Vec<Anomaly>)
    requires
        scan::bytes_of_all(entries@) <= u64::MAX,
    ensures
        order::views(r@) == anomalies_in(
            zone@,
            dirs_of(container@, entries@),
            floor as nat,
            text::opt_text(*home),
        ),
{
    let ghost h = text::opt_text(*home);
    let children = sized_children(container, entries);
    let ghost dirs = dirs_of(container@, entries@);
    let mut r: Vec<Anomaly> = Vec::new();
    assert(order::views(r@) =~= Seq::<AnomalyView>::empty());
    if children.len() < 2 {
        return r;
    }
    let med = median_bytes(&children);
    let mut i: usize = 0;
    assert(dirs.take(0) =~= Seq::<(Seq<char>, nat)>::empty());
    while i < children.len()
        invariant
            i <= children@.len(),
            order::views(children@) == dirs,
            h == text::opt_text(*home),
            order::views(r@) == anomalies_among(
                zone@,
                dirs.take(i as int),
                med as nat,
                children@.len(),
                floor as nat,
                h,
            ),
        decreases children@.len() - i,
    {
        proof {
            assert(dirs.take(i + 1).drop_last() =~= dirs.take(i as int));
            assert(dirs.take(i + 1).last() == children@[i as int]@);
        }
        let bytes = children[i].bytes;
        if bytes >= floor && (med == 0 || is_ten_times(bytes, med)) {
            let at = children[i].path.clone();
            let kind = classify(at.as_str(), home);
            let a = Anomaly {
                zone: zone.to_owned(),
                name: match file_name(at.as_str()) {
                    Some(n) => n,
                    None => String::new(),
                },
                path: at,
                bytes,
                kind,
                median_bytes: med,
                ratio: if med == 0 {
                    None
                } else {
                    Some(Ratio { part: bytes, whole: med })
                },
                siblings: children.len(),
                severity: severity_for(kind, bytes),
            };
            proof {
                assert(a@.name =~= shown_name(a@.path));
                order::lemma_views_push(r@, a);
            }
            r.push(a);
        }
        i += 1;
    }
    assert(dirs.take(dirs.len() as int) =~= dirs);
    r
}

/// A container that was read.
pub struct Container {
    pub path: String,
    pub entries: Vec<Entry>,
}

/// The anomalies of the first containers of a zone.
pub open spec fn anomalies_at(
    zone: (Seq<char>, Seq<char>, u64),
    containers: Seq<Container>,
    home: Option<Seq<char>>,
) -> Seq<AnomalyView>
    decreases containers.len(),
{
    if containers.len() == 0 {
        Seq::empty()
    } else {
        let c = containers.last();
        anomalies_at(zone, containers.drop_last(), home) + anomalies_in(
            zone.0,
            dirs_of(c.path@, c.entries@),
            report::megabytes(zone.2 as nat),
            home,
        )
    }
}

/// The anomalies of the first zones, each over its containers.
pub open spec fn anomalies_of(
    zs: Seq<(Seq<char>, Seq<char>, u64)>,
    containers: Seq<Vec<Container>>,
    home: Option<Seq<char>>,
) -> Seq<AnomalyView>
    decreases zs.len(),
{
    if zs.len() == 0 {
        Seq::empty()
    } else {
        anomalies_of(zs.drop_last(), containers, home) + anomalies_at(
            zs.last(),
            containers[zs.len() - 1]@,
            home,
        )
    }
}

/// Largest first.
pub open spec fn larger_anomaly() -> spec_fn(AnomalyView, AnomalyView) -> bool {
    |a: AnomalyView, b: AnomalyView| a.bytes > b.bytes
}

fn anomaly_is_larger(a: &Anomaly, b: &Anomaly) -> (r: bool)
    ensures
        r == (a.bytes > b.bytes),
{
    a.bytes > b.bytes
}

/// Sorts anomalies largest first.
pub fn sort_anomalies(found: Vec<Anomaly>) -> (r: Vec<Anomaly>)
    ensures
        order::views(r@) == order::ordered(order::views(found@), larger_anomaly()),
{
    sort_by_view(found, anomaly_is_larger, Ghost(larger_anomaly()))
}

/// Whether the containers of every zone can be counted.
pub open spec fn containers_fit(containers: Seq<Vec<Container>>) -> bool {
    forall|i: int, j: int|
        0 <= i < containers.len() && 0 <= j < containers[i]@.len() ==> scan::bytes_of_all(
            (#[trigger] containers[i]@[j]).entries@,
        ) <= u64::MAX
}

fn append_anomalies(all: &mut Vec<Anomaly>, mut more: Vec<Anomaly>)
    ensures
        order::views(final(all)@) == order::views(old(all)@) + order::views(more@),
{
    let ghost a = order::views(all@);
    let ghost b = order::views(more@);
    all.append(&mut more);
    assert(order::views(all@) =~= a + b);
}

/// Scans every zone over the containers that its path names and returns the size outliers,
/// largest first.
pub fn detect_anomalies(
    zs: &Vec<Zone>,
    containers: &Vec<Vec<Container>>,
    home: &Option<String>,
) -> (r: Vec<Anomaly>)
    requires
        containers@.len() == zs@.len(),
        containers_fit(containers@),
    ensures
        order::views(r@) == order::ordered(
            anomalies_of(order::views(zs@), containers@, text::opt_text(*home)),
            larger_anomaly(),
        ),
{
    let ghost h = text::opt_text(*home);
    let ghost all = order::views(zs@);
    let mut found: Vec<Anomaly> = Vec::new();
    let mut i: usize = 0;
    assert(all.take(0) =~= Seq::<(Seq<char>, Seq<char>, u64)>::empty());
    assert(order::views(found@) =~= Seq::<AnomalyView>::empty());
    while i < zs.len()
        invariant
            i <= zs@.len(),
            containers@.len() == zs@.len(),
            containers_fit(containers@),
            all == order::views(zs@),
            h == text::opt_text(*home),
            order::views(found@) == anomalies_of(all.take(i as int), containers@, h),
        decreases zs@.len() - i,
    {
        let zone = zs[i];
        let floor = mb_bytes(zone.min_flag_mb);
        let here = &containers[i];
        let ghost before = order::views(found@);
        let mut j: usize = 0;
        proof {
            assert(here@.take(0) =~= Seq::<Container>::empty());
            assert(before + anomalies_at(zone@, here@.take(0), h) =~= before);
        }
        while j < here.len()
            invariant
                j <= here@.len(),
                i < containers@.len(),
                containers_fit(containers@),
                here@ == containers@[i as int]@,
                h == text::opt_text(*home),
                floor == report::megabytes(zone.min_flag_mb as nat),
                order::views(found@) == before + anomalies_at(zone@, here@.take(j as int), h),
            decreases here@.len() - j,
        {
            proof {
                assert(here@.take(j + 1).drop_last() =~= here@.take(j as int));
                assert(here@.take(j + 1).last() == here@[j as int]);
                assert(scan::bytes_of_all(containers@[i as int]@[j as int].entries@) <= u64::MAX);
            }
            let more = analyze_container(
                zone.name,
                here[j].path.as_str(),
                &here[j].entries,
                floor,
                home,
            );
            let ghost tail = order::views(more@);
            append_anomalies(&mut found, more);
            proof {
                assert((before + anomalies_at(zone@, here@.take(j as int), h)) + tail =~= before
                    + anomalies_at(zone@, here@.take(j + 1), h));
            }
            j += 1;
        }
        proof {
            assert(here@.take(here@.len() as int) =~= here@);
            assert(all.take(i + 1).drop_last() =~= all.take(i as int));
            assert(all.take(i + 1).last() == zone@);
        }
        i += 1;
    }
    assert(all.take(all.len() as int) =~= all);
    sort_anomalies(found)
}

/// A child folder with the name of its zone.
#[derive(Debug)]
pub struct ZoneChild {
    pub zone: &'static str,
    pub path: String,
    pub bytes: u64,
}

impl View for ZoneChild {
    type V = (Seq<char>, Seq<char>, nat);

    open spec fn view(&self) -> (Seq<char>, Seq<char>, nat) {
        (self.zone@, self.path@, self.bytes as nat)
    }
}

/// Directories labelled with their zone.
pub open spec fn labelled(zone: Seq<char>, dirs: Seq<(Seq<char>, nat)>) -> Seq<
    (Seq<char>, Seq<char>, nat),
> {
    Seq::new(dirs.len(), |i: int| (zone, dirs[i].0, dirs[i].1))
}

/// The child folders of the first containers of a zone.
pub open spec fn population_at(zone: Seq<char>, containers: Seq<Container>) -> Seq<
    (Seq<char>, Seq<char>, nat),
>
    decreases containers.len(),
{
    if containers.len() == 0 {
        Seq::empty()
    } else {
        let c = containers.last();
        population_at(zone, containers.drop_last()) + labelled(zone, dirs_of(c.path@, c.entries@))
    }
}

/// The child folders of the first zones.
pub open spec fn population(
    zs: Seq<(Seq<char>, Seq<char>, u64)>,
    containers: Seq<Vec<Container>>,
) -> Seq<(Seq<char>, Seq<char>, nat)>
    decreases zs.len(),
{
    if zs.len() == 0 {
        Seq::empty()
    } else {
        population(zs.drop_last(), containers) + population_at(
            zs.last().0,
            containers[zs.len() - 1]@,
        )
    }
}

/// Every child folder across all zones, with its zone name: the full population that a
/// typical size must be sampled from.
pub fn zone_children(zs: &Vec<Zone>, containers: &Vec<Vec<Container>>) -> (r: Vec<ZoneChild>)
    requires
        containers@.len() == zs@.len(),
        containers_fit(containers@),
    ensures
        order::views(r@) == population(order::views(zs@), containers@),
{
    let ghost all = order::views(zs@);
    let mut r: Vec<ZoneChild> = Vec::new();
    let mut i: usize = 0;
    assert(all.take(0) =~= Seq::<(Seq<char>, Seq<char>, u64)>::empty());
    assert(order::views(r@) =~= Seq::<(Seq<char>, Seq<char>, nat)>::empty());
    while i < zs.len()
        invariant
            i <= zs@.len(),
            containers@.len() == zs@.len(),
            containers_fit(containers@),
            all == order::views(zs@),
            order::views(r@) == population(all.take(i as int), containers@),
        decreases zs@.len() - i,
    {
        let zone = zs[i];
        let here = &containers[i];
        let ghost before = order::views(r@);
        let mut j: usize = 0;
        proof {
            assert(here@.take(0) =~= Seq::<Container>::empty());
            assert(before + population_at(zone.name@, here@.take(0)) =~= before);
        }
        while j < here.len()
            invariant
                j <= here@.len(),
                i < containers@.len(),
                containers_fit(containers@),
                here@ == containers@[i as int]@,
                order::views(r@) == before + population_at(zone.name@, here@.take(j as int)),
            decreases here@.len() - j,
        {
            proof {
                assert(here@.take(j + 1).drop_last() =~= here@.take(j as int));
                assert(here@.take(j + 1).last() == here@[j as int]);
                assert(scan::bytes_of_all(containers@[i as int]@[j as int].entries@) <= u64::MAX);
            }
            let dirs = sized_children(here[j].path.as_str(), &here[j].entries);
            let ghost ds = order::views(dirs@);
            let ghost start = order::views(r@);
            let mut k: usize = 0;
            assert(start + labelled(zone.name@, ds.take(0)) =~= start);
            while k < dirs.len()
                invariant
                    k <= dirs@.len(),
                    ds == order::views(dirs@),
                    order::views(r@) == start + labelled(zone.name@, ds.take(k as int)),
                decreases dirs@.len() - k,
            {
                let c = ZoneChild {
                    zone: zone.name,
                    path: dirs[k].path.clone(),
                    bytes: dirs[k].bytes,
                };
                proof {
                    order::lemma_views_push(r@, c);
                    assert((start + labelled(zone.name@, ds.take(k as int))).push(c@) =~= start
                        + labelled(zone.name@, ds.take(k + 1)));
                }
                r.push(c);
                k += 1;
            }
            proof {
                assert(ds.take(ds.len() as int) =~= ds);
                assert(start + labelled(zone.name@, ds) =~= before + population_at(
                    zone.name@,
                    here@.take(j + 1),
                ));
            }
            j += 1;
        }
        proof {
            assert(here@.take(here@.len() as int) =~= here@);
            assert(all.take(i + 1).drop_last() =~= all.take(i as int));
            assert(all.take(i + 1).last() == zone@);
        }
        i += 1;
    }
    assert(all.take(all.len() as int) =~= all);
    r
}

/// Anomalies come largest first, none is lost, and ties keep their order.
pub proof fn anomalies_come_largest_first(s: Seq<AnomalyView>, x: AnomalyView)
    ensures
        order::in_order(order::ordered(s, larger_anomaly()), larger_anomaly()),
        order::ordered(s, larger_anomaly()).to_multiset() == s.to_multiset(),
        order::tied_with(order::ordered(s, larger_anomaly()), x, larger_anomaly()) == order::tied_with(
            s,
            x,
            larger_anomaly(),
        ),
{
    order::ordering_puts_in_order(s, larger_anomaly());
    order::ordering_keeps_items(s, larger_anomaly());
    order::ordering_is_stable(s, x, larger_anomaly());
}

/// What is flagged stands out: it reaches the floor, its kind is that of its path, and its
/// severity that of its kind and size, so that a cache is never alarming.
pub proof fn anomalies_stand_out(
    zone: Seq<char>,
    dirs: Seq<(Seq<char>, nat)>,
    med: nat,
    siblings: nat,
    floor: nat,
    home: Option<Seq<char>>,
    i: int,
)
    requires
        0 <= i < anomalies_among(zone, dirs, med, siblings, floor, home).len(),
    ensures
        ({
            let a = anomalies_among(zone, dirs, med, siblings, floor, home)[i];
            &&& stands_out(a.bytes, med, floor)
            &&& a.kind == kind_of(a.path, home)
            &&& a.severity == severity_of(a.kind, a.bytes)
            &&& a.kind == AnomalyKind::Cache ==> a.severity == Severity::Info
            &&& a.zone == zone
            &&& a.median_bytes == med
        }),
    decreases dirs.len(),
{
    let rest = anomalies_among(zone, dirs.drop_last(), med, siblings, floor, home);
    if i < rest.len() {
        anomalies_stand_out(zone, dirs.drop_last(), med, siblings, floor, home, i);
    }
}

/// A child that stands out is always flagged.
pub proof fn outliers_are_flagged(
    zone: Seq<char>,
    dirs: Seq<(Seq<char>, nat)>,
    med: nat,
    siblings: nat,
    floor: nat,
    home: Option<Seq<char>>,
    i: int,
)
    requires
        0 <= i < dirs.len(),
        stands_out(dirs[i].1, med, floor),
    ensures
        anomalies_among(zone, dirs, med, siblings, floor, home).contains(
            anomaly_of(zone, dirs[i], med, siblings, home),
        ),
    decreases dirs.len(),
{
    let all = anomalies_among(zone, dirs, med, siblings, floor, home);
    let rest = anomalies_among(zone, dirs.drop_last(), med, siblings, floor, home);
    let wanted = anomaly_of(zone, dirs[i], med, siblings, home);
    if i == dirs.len() - 1 {
        assert(all[all.len() - 1] == wanted);
    } else {
        outliers_are_flagged(zone, dirs.drop_last(), med, siblings, floor, home, i);
        let k = choose|k: int| 0 <= k < rest.len() && rest[k] == wanted;
        assert(all[k] == wanted);
    }
}

} // verus!
