//! The interactive `scan` dashboard: a navigable overview folding disk accounting, reclaimable
//! buckets, size anomalies, biggest files, and leak signatures into one screen.

use vstd::prelude::*;

use crate::anomaly::{Anomaly, AnomalyKind};
use crate::order;
use crate::report;
use crate::report::{human, Bucket, DiskSpace, Finding, LargeFile, ScanReport, Severity};
use crate::text;
use crate::text::{align_right, decimal_text, Page};
use crate::tui::keys;
use crate::tui::keys::{meaning_of, Key, Move};
use crate::tui::screen::Screen;

verus! {

/// What stands at the path of a row.
#[derive(Debug, Clone, Copy, PartialEq, Eq, Structural)]
pub enum RowKind {
    Dir,
    File,
}

/// A row of the dashboard.
#[derive(Debug)]
pub struct DashRow {
    pub bytes: u64,
    pub label: String,
    pub tag: Option<String>,
    pub path: String,
    pub kind: RowKind,
}

/// What a row says.
pub struct DashView {
    pub bytes: u64,
    pub label: Seq<char>,
    pub tag: Option<Seq<char>>,
    pub path: Seq<char>,
    pub kind: RowKind,
}

impl View for DashRow {
    type V = DashView;

    open spec fn view(&self) -> DashView {
        DashView {
            bytes: self.bytes,
            label: self.label@,
            tag: text::opt_text(self.tag),
            path: self.path@,
            kind: self.kind,
        }
    }
}

/// A titled part of the dashboard.
#[derive(Debug)]
pub struct Section {
    pub title: String,
    pub rows: Vec<DashRow>,
}

/// What a section says.
pub struct SectionView {
    pub title: Seq<char>,
    pub rows: Seq<DashView>,
}

impl View for Section {
    type V = SectionView;

    open spec fn view(&self) -> SectionView {
        SectionView { title: self.title@, rows: order::views(self.rows@) }
    }
}

/// The dashboard.
#[derive(Debug)]
pub struct Dashboard {
    pub root: String,
    pub disk: Option<DiskSpace>,
    pub snapshots: usize,
    pub sections: Vec<Section>,
    /// (section, row) positions in reading order: the navigable rows.
    pub nav: Vec<(usize, usize)>,
    pub cursor: usize,
}

/// The tag of a severity.
pub open spec fn tag_of(severity: Severity) -> Seq<char> {
    match severity {
        Severity::Critical => "CRIT"@,
        Severity::Warn => "WARN"@,
        Severity::Info => "info"@,
    }
}

/// The tag of a severity.
pub fn sev_tag(severity: Severity) -> (r: String)
    ensures
        r@ == tag_of(severity),
{
    match severity {
        Severity::Critical => "CRIT".to_owned(),
        Severity::Warn => "WARN".to_owned(),
        Severity::Info => "info".to_owned(),
    }
}

/// The row for a bucket.
pub open spec fn bucket_row(b: Bucket) -> DashView {
    DashView {
        bytes: b.bytes,
        label: b.name@,
        tag: Some(if b.safe_auto { "safe"@ } else { "review"@ }),
        path: b.path@,
        kind: RowKind::Dir,
    }
}

/// The rows for the buckets.
pub open spec fn bucket_rows(bs: Seq<Bucket>) -> Seq<DashView> {
    Seq::new(bs.len(), |i: int| bucket_row(bs[i]))
}

/// The row for an anomaly: app data shows its severity, a cache that it is one.
pub open spec fn anomaly_row(a: Anomaly) -> DashView {
    DashView {
        bytes: a.bytes,
        label: a.name@,
        tag: Some(match a.kind {
            AnomalyKind::AppData => tag_of(a.severity),
            AnomalyKind::Cache => "cache"@,
        }),
        path: a.path@,
        kind: RowKind::Dir,
    }
}

/// The rows for the anomalies of one kind.
pub open spec fn anomaly_rows(anomalies: Seq<Anomaly>, kind: AnomalyKind) -> Seq<DashView>
    decreases anomalies.len(),
{
    if anomalies.len() == 0 {
        Seq::empty()
    } else {
        let rest = anomaly_rows(anomalies.drop_last(), kind);
        if anomalies.last().kind == kind { rest.push(anomaly_row(anomalies.last())) } else { rest }
    }
}

/// The row for a large file.
pub open spec fn file_row(f: LargeFile) -> DashView {
    DashView {
        bytes: f.bytes,
        label: f.path@,
        tag: match f.modified_days {
            Some(d) => Some(text::decimal(d as nat) + "d"@),
            None => None,
        },
        path: f.path@,
        kind: RowKind::File,
    }
}

/// The rows for the large files.
pub open spec fn file_rows(files: Seq<LargeFile>) -> Seq<DashView> {
    Seq::new(files.len(), |i: int| file_row(files[i]))
}

/// The row for a finding.
pub open spec fn finding_row(f: Finding) -> DashView {
    DashView {
        bytes: f.bytes,
        label: f.name@,
        tag: Some(tag_of(f.severity)),
        path: f.path@,
        kind: RowKind::Dir,
    }
}

/// The rows for the findings.
pub open spec fn finding_rows(fs: Seq<Finding>) -> Seq<DashView> {
    Seq::new(fs.len(), |i: int| finding_row(fs[i]))
}

/// The sections with one more, which is dropped where it has no rows.
pub open spec fn with_section(
    sections: Seq<SectionView>,
    title: Seq<char>,
    rows: Seq<DashView>,
) -> Seq<SectionView> {
    if rows.len() == 0 { sections } else { sections.push(SectionView { title, rows }) }
}

/// The sections of a dashboard, in reading order; empty ones are dropped.
pub open spec fn sections_of(
    scan: ScanReport,
    anomalies: Seq<Anomaly>,
    largest: Seq<LargeFile>,
) -> Seq<SectionView> {
    let a = with_section(Seq::empty(), "Reclaimable"@, bucket_rows(scan.buckets@));
    let b = with_section(
        a,
        "App data — review before removing"@,
        anomaly_rows(anomalies, AnomalyKind::AppData),
    );
    let c = with_section(
        b,
        "Caches — safe to clear"@,
        anomaly_rows(anomalies, AnomalyKind::Cache),
    );
    let d = with_section(c, "Biggest files"@, file_rows(largest));
    with_section(d, "Leak signatures"@, finding_rows(scan.findings@))
}

/// The positions of the rows of section `s`.
pub open spec fn row_positions(s: nat, rows: nat) -> Seq<(nat, nat)> {
    Seq::new(rows, |r: int| (s, r as nat))
}

/// The positions of all rows in reading order.
pub open spec fn nav_of(sections: Seq<SectionView>) -> Seq<(nat, nat)>
    decreases sections.len(),
{
    if sections.len() == 0 {
        Seq::empty()
    } else {
        nav_of(sections.drop_last()) + row_positions(
            (sections.len() - 1) as nat,
            sections.last().rows.len(),
        )
    }
}

/// Positions as numbers.
pub open spec fn nav_view(nav: Seq<(usize, usize)>) -> Seq<(nat, nat)> {
    Seq::new(nav.len(), |i: int| (nav[i].0 as nat, nav[i].1 as nat))
}

proof fn lemma_nav_in_range(sections: Seq<SectionView>, k: int)
    requires
        0 <= k < nav_of(sections).len(),
    ensures
        nav_of(sections)[k].0 < sections.len(),
        nav_of(sections)[k].1 < sections[nav_of(sections)[k].0 as int].rows.len(),
    decreases sections.len(),
{
    if sections.len() > 0 {
        let before = nav_of(sections.drop_last());
        if k < before.len() {
            lemma_nav_in_range(sections.drop_last(), k);
        }
    }
}

fn push_section(sections: &mut Vec<Section>, title: &str, rows: Vec<DashRow>)
    ensures
        order::views(final(sections)@) == with_section(
            order::views(old(sections)@),
            title@,
            order::views(rows@),
        ),
{
    if rows.len() > 0 {
        let section = Section { title: title.to_owned(), rows };
        proof {
            order::lemma_views_push(sections@, section);
        }
        sections.push(section);
    }
}

fn rows_for_buckets(bs: &Vec<Bucket>) -> (r: Vec<DashRow>)
    ensures
        order::views(r@) == bucket_rows(bs@),
{
    let mut r: Vec<DashRow> = Vec::new();
    let mut i: usize = 0;
    assert(order::views(r@) =~= bucket_rows(bs@).take(0));
    while i < bs.len()
        invariant
            i <= bs@.len(),
            order::views(r@) == bucket_rows(bs@).take(i as int),
        decreases bs@.len() - i,
    {
        let b = &bs[i];
        let row = DashRow {
            bytes: b.bytes,
            label: b.name.clone(),
            tag: Some(
                if b.safe_auto {
                    "safe".to_owned()
                } else {
                    "review".to_owned()
                },
            ),
            path: b.path.clone(),
            kind: RowKind::Dir,
        };
        proof {
            order::lemma_views_push(r@, row);
            assert(bucket_rows(bs@).take(i as int).push(row@) =~= bucket_rows(bs@).take(i + 1));
        }
        r.push(row);
        i += 1;
    }
    assert(bucket_rows(bs@).take(bs@.len() as int) =~= bucket_rows(bs@));
    r
}

fn rows_for_anomalies(anomalies: &Vec<Anomaly>, kind: AnomalyKind) -> (r: Vec<DashRow>)
    ensures
        order::views(r@) == anomaly_rows(anomalies@, kind),
{
    let mut r: Vec<DashRow> = Vec::new();
    let mut i: usize = 0;
    assert(anomalies@.take(0) =~= Seq::<Anomaly>::empty());
    assert(order::views(r@) =~= Seq::<DashView>::empty());
    while i < anomalies.len()
        invariant
            i <= anomalies@.len(),
            order::views(r@) == anomaly_rows(anomalies@.take(i as int), kind),
        decreases anomalies@.len() - i,
    {
        let a = &anomalies[i];
        proof {
            assert(anomalies@.take(i + 1).drop_last() =~= anomalies@.take(i as int));
            assert(anomalies@.take(i + 1).last() == *a);
        }
        if a.kind == kind {
            let row = DashRow {
                bytes: a.bytes,
                label: a.name.clone(),
                tag: Some(
                    match a.kind {
                        AnomalyKind::AppData => sev_tag(a.severity),
                        AnomalyKind::Cache => "cache".to_owned(),
                    },
                ),
                path: a.path.clone(),
                kind: RowKind::Dir,
            };
            proof {
                order::lemma_views_push(r@, row);
            }
            r.push(row);
        }
        i += 1;
    }
    assert(anomalies@.take(anomalies@.len() as int) =~= anomalies@);
    r
}

fn rows_for_files(files: &Vec<LargeFile>) -> (r: Vec<DashRow>)
    ensures
        order::views(r@) == file_rows(files@),
{
    let mut r: Vec<DashRow> = Vec::new();
    let mut i: usize = 0;
    assert(order::views(r@) =~= file_rows(files@).take(0));
    while i < files.len()
        invariant
            i <= files@.len(),
            order::views(r@) == file_rows(files@).take(i as int),
        decreases files@.len() - i,
    {
        let f = &files[i];
        let tag = match f.modified_days {
            Some(d) => {
                let mut t = decimal_text(d);
                t.append("d");
                Some(t)
            },
            None => None,
        };
        let row = DashRow {
            bytes: f.bytes,
            label: f.path.clone(),
            tag,
            path: f.path.clone(),
            kind: RowKind::File,
        };
        proof {
            order::lemma_views_push(r@, row);
            assert(file_rows(files@).take(i as int).push(row@) =~= file_rows(files@).take(i + 1));
        }
        r.push(row);
        i += 1;
    }
    assert(file_rows(files@).take(files@.len() as int) =~= file_rows(files@));
    r
}

fn rows_for_findings(fs: &Vec<Finding>) -> (r: Vec<DashRow>)
    ensures
        order::views(r@) == finding_rows(fs@),
{
    let mut r: Vec<DashRow> = Vec::new();
    let mut i: usize = 0;
    assert(order::views(r@) =~= finding_rows(fs@).take(0));
    while i < fs.len()
        invariant
            i <= fs@.len(),
            order::views(r@) == finding_rows(fs@).take(i as int),
        decreases fs@.len() - i,
    {
        let f = &fs[i];
        let row = DashRow {
            bytes: f.bytes,
            label: f.name.clone(),
            tag: Some(sev_tag(f.severity)),
            path: f.path.clone(),
            kind: RowKind::Dir,
        };
        proof {
            order::lemma_views_push(r@, row);
            assert(finding_rows(fs@).take(i as int).push(row@) =~= finding_rows(fs@).take(i + 1));
        }
        r.push(row);
        i += 1;
    }
    assert(finding_rows(fs@).take(fs@.len() as int) =~= finding_rows(fs@));
    r
}

fn build_nav(sections: &Vec<Section>) -> (r: Vec<(usize, usize)>)
    ensures
        nav_view(r@) == nav_of(order::views(sections@)),
{
    let ghost all = order::views(sections@);
    let mut nav: Vec<(usize, usize)> = Vec::new();
    let mut s: usize = 0;
    assert(all.take(0) =~= Seq::<SectionView>::empty());
    assert(nav_view(nav@) =~= Seq::<(nat, nat)>::empty());
    while s < sections.len()
        invariant
            s <= sections@.len(),
            all == order::views(sections@),
            nav_view(nav@) == nav_of(all.take(s as int)),
        decreases sections@.len() - s,
    {
        let n = sections[s].rows.len();
        let ghost before = nav_view(nav@);
        let mut i: usize = 0;
        assert(before + row_positions(s as nat, 0) =~= before);
        while i < n
            invariant
                i <= n,
                nav_view(nav@) == before + row_positions(s as nat, i as nat),
            decreases n - i,
        {
            let ghost now = nav@;
            nav.push((s, i));
            proof {
                assert(nav_view(nav@) =~= nav_view(now).push((s as nat, i as nat)));
                assert((before + row_positions(s as nat, i as nat)).push((s as nat, i as nat))
                    =~= before + row_positions(s as nat, (i + 1) as nat));
            }
            i += 1;
        }
        proof {
            assert(all.take(s + 1).drop_last() =~= all.take(s as int));
            assert(all.take(s + 1).last() == sections@[s as int]@);
        }
        s += 1;
    }
    assert(all.take(all.len() as int) =~= all);
    nav
}

/// A volume by its numbers.
pub open spec fn disk_view(disk: Option<DiskSpace>) -> Option<(Seq<char>, u64, u64, u64)> {
    match disk {
        Some(d) => Some((d.path@, d.total, d.used, d.free)),
        None => None,
    }
}

fn copy_disk(disk: &Option<DiskSpace>) -> (r: Option<DiskSpace>)
    ensures
        disk_view(r) == disk_view(*disk),
{
    match disk {
        Some(d) => Some(
            DiskSpace { path: d.path.clone(), total: d.total, used: d.used, free: d.free },
        ),
        None => None,
    }
}

/// Assembles the dashboard from a (fast) scan report plus the anomaly and largest-file walks.
/// Empty sections are dropped; every row can be reached.
pub fn assemble_dashboard(
    root: String,
    scan: &ScanReport,
    anomalies: &Vec<Anomaly>,
    largest: &Vec<LargeFile>,
    snapshots: usize,
) -> (r: Dashboard)
    ensures
        r.root == root,
        disk_view(r.disk) == disk_view(scan.disk),
        r.snapshots == snapshots,
        order::views(r.sections@) == sections_of(*scan, anomalies@, largest@),
        r.cursor == 0,
        r.wf(),
{
    let mut sections: Vec<Section> = Vec::new();
    assert(order::views(sections@) =~= Seq::<SectionView>::empty());
    push_section(&mut sections, "Reclaimable", rows_for_buckets(&scan.buckets));
    push_section(
        &mut sections,
        "App data — review before removing",
        rows_for_anomalies(anomalies, AnomalyKind::AppData),
    );
    push_section(
        &mut sections,
        "Caches — safe to clear",
        rows_for_anomalies(anomalies, AnomalyKind::Cache),
    );
    push_section(&mut sections, "Biggest files", rows_for_files(largest));
    push_section(&mut sections, "Leak signatures", rows_for_findings(&scan.findings));
    let nav = build_nav(&sections);
    Dashboard { root, disk: copy_disk(&scan.disk), snapshots, sections, nav, cursor: 0 }
}

/// No section of a dashboard is empty.
pub proof fn sections_are_never_empty(
    scan: ScanReport,
    anomalies: Seq<Anomaly>,
    largest: Seq<LargeFile>,
    i: int,
)
    requires
        0 <= i < sections_of(scan, anomalies, largest).len(),
    ensures
        sections_of(scan, anomalies, largest)[i].rows.len() > 0,
{
}

/// Every anomaly is shown, as app data or as a cache.
pub proof fn every_anomaly_is_shown(anomalies: Seq<Anomaly>)
    ensures
        anomaly_rows(anomalies, AnomalyKind::AppData).len() + anomaly_rows(
            anomalies,
            AnomalyKind::Cache,
        ).len() == anomalies.len(),
    decreases anomalies.len(),
{
    if anomalies.len() > 0 {
        every_anomaly_is_shown(anomalies.drop_last());
    }
}

/// What has to be done after a key.
#[derive(Debug)]
pub enum DashAction {
    /// Draw again.
    Stay,
    /// Leave the dashboard.
    Quit,
    /// Explore a folder.
    Explore(String),
    /// Show a file in the file manager.
    Reveal(String),
}

/// The index of the line of the `k`-th row: every section has a header line.
pub open spec fn line_of_row(sections: Seq<SectionView>, k: nat) -> nat
    decreases sections.len(),
{
    if sections.len() == 0 {
        0
    } else {
        let before = nav_of(sections.drop_last()).len();
        if k < before {
            line_of_row(sections.drop_last(), k)
        } else {
            sections.len() + k
        }
    }
}

/// A row as it is drawn.
pub open spec fn dash_line(row: DashView) -> Seq<char> {
    "   "@ + text::right_aligned(report::human_text(row.bytes as nat), 10) + "  "@
        + text::right_aligned(
        match row.tag {
            Some(t) => t,
            None => text::nil(),
        },
        6,
    ) + "  "@ + row.label
}

/// The lines of the first rows of a section.
pub open spec fn row_lines(rows: Seq<DashView>) -> Seq<Seq<char>> {
    Seq::new(rows.len(), |i: int| dash_line(rows[i]))
}

/// The lines of the sections: a header, then a line for each row.
pub open spec fn section_lines(sections: Seq<SectionView>) -> Seq<Seq<char>>
    decreases sections.len(),
{
    if sections.len() == 0 {
        Seq::empty()
    } else {
        section_lines(sections.drop_last()) + (seq![" "@ + sections.last().title] + row_lines(
            sections.last().rows,
        ))
    }
}

proof fn lemma_lines_len(sections: Seq<SectionView>)
    ensures
        section_lines(sections).len() == sections.len() + nav_of(sections).len(),
    decreases sections.len(),
{
    if sections.len() > 0 {
        lemma_lines_len(sections.drop_last());
    }
}

/// The highlighted line is the line of the row under the cursor.
pub proof fn highlight_is_on_the_current_row(sections: Seq<SectionView>, k: nat)
    requires
        k < nav_of(sections).len(),
    ensures
        ({
            let (s, r) = nav_of(sections)[k as int];
            let at = line_of_row(sections, k) as int;
            &&& 0 <= at < section_lines(sections).len()
            &&& section_lines(sections)[at] == dash_line(sections[s as int].rows[r as int])
        }),
    decreases sections.len(),
{
    let shorter = sections.drop_last();
    let before = nav_of(shorter);
    lemma_lines_len(shorter);
    if k < before.len() {
        highlight_is_on_the_current_row(shorter, k);
        lemma_nav_in_range(shorter, k as int);
    } else {
        let tail = seq![" "@ + sections.last().title] + row_lines(sections.last().rows);
        let at = line_of_row(sections, k) as int;
        let r = k - before.len();
        assert(at == section_lines(shorter).len() + 1 + r);
        assert(section_lines(sections)[at] == tail[1 + r]);
    }
}

/// The line on a volume and its snapshots.
pub open spec fn disk_line(disk: Option<DiskSpace>, snapshots: nat) -> Seq<char> {
    match disk {
        Some(d) => " "@ + report::human_text(d.used as nat) + " used of "@ + report::human_text(
            d.total as nat,
        ) + "  ·  "@ + report::human_text(d.free as nat) + " free  ·  "@ + text::decimal(
            snapshots,
        ) + " snapshot(s)"@,
        None => " "@ + text::decimal(snapshots) + " snapshot(s)"@,
    }
}

impl Dashboard {
    /// The navigable rows are those of the sections, and the cursor is on one of them, or at
    /// the top where there is none.
    pub open spec fn wf(&self) -> bool {
        &&& nav_view(self.nav@) == nav_of(order::views(self.sections@))
        &&& self.cursor == 0 || self.cursor < self.nav@.len()
    }

    /// The row under the cursor.
    pub open spec fn at_cursor(&self) -> Option<DashRow> {
        if self.cursor < self.nav@.len() {
            let (s, r) = self.nav@[self.cursor as int];
            Some(self.sections@[s as int].rows@[r as int])
        } else {
            None
        }
    }

    /// Moves the cursor up one row, as far as there is one.
    pub fn move_up(&mut self)
        ensures
            final(self).same_but_cursor(*old(self)),
            final(self).cursor == (if old(self).cursor == 0 {
                0
            } else {
                old(self).cursor - 1
            }),
            old(self).wf() ==> final(self).wf(),
    {
        if self.cursor > 0 {
            self.cursor = self.cursor - 1;
        }
    }

    /// Moves the cursor down one row, as far as there is one.
    pub fn move_down(&mut self)
        ensures
            final(self).same_but_cursor(*old(self)),
            final(self).cursor == (if old(self).cursor + 1 < old(self).nav@.len() {
                old(self).cursor + 1
            } else {
                old(self).cursor as int
            }),
            old(self).wf() ==> final(self).wf(),
    {
        let n = self.nav.len();
        if self.cursor < n && self.cursor + 1 < n {
            self.cursor = self.cursor + 1;
        }
    }

    /// Nothing but the cursor differs.
    pub open spec fn same_but_cursor(&self, other: Dashboard) -> bool {
        *self == (Dashboard { cursor: self.cursor, ..other })
    }

    /// The row under the cursor, if there is one.
    pub fn current(&self) -> (r: Option<&DashRow>)
        requires
            self.wf(),
        ensures
            match r {
                Some(row) => self.at_cursor() == Some(*row),
                None => self.at_cursor() is None,
            },
            r is None == (self.nav@.len() == 0),
    {
        if self.cursor < self.nav.len() {
            let (s, r) = self.nav[self.cursor];
            proof {
                let views = order::views(self.sections@);
                lemma_nav_in_range(views, self.cursor as int);
                assert(nav_view(self.nav@)[self.cursor as int] == (s as nat, r as nat));
                assert(views[s as int] == self.sections@[s as int]@);
            }
            Some(&self.sections[s].rows[r])
        } else {
            None
        }
    }

    /// What a key does: moves, quits, or opens the current row: a folder is explored, a file
    /// is shown in the file manager.
    pub fn on_key(&mut self, key: Key) -> (r: DashAction)
        requires
            old(self).wf(),
        ensures
            final(self).wf(),
            final(self).same_but_cursor(*old(self)),
            final(self).cursor == (match keys::meaning(key) {
                Move::Up => if old(self).cursor == 0 {
                    0
                } else {
                    old(self).cursor - 1
                },
                Move::Down => if old(self).cursor + 1 < old(self).nav@.len() {
                    old(self).cursor + 1
                } else {
                    old(self).cursor as int
                },
                _ => old(self).cursor as int,
            }),
            match keys::meaning(key) {
                Move::Quit => r == DashAction::Quit,
                Move::In => match old(self).at_cursor() {
                    Some(row) => match row.kind {
                        RowKind::Dir => r == DashAction::Explore(row.path),
                        RowKind::File => r == DashAction::Reveal(row.path),
                    },
                    None => r == DashAction::Stay,
                },
                _ => r == DashAction::Stay,
            },
    {
        match meaning_of(key) {
            Move::Quit => {
                return DashAction::Quit;
            },
            Move::Up => self.move_up(),
            Move::Down => self.move_down(),
            Move::In => {
                if let Some(row) = self.current() {
                    let at = row.path.clone();
                    return match row.kind {
                        RowKind::Dir => DashAction::Explore(at),
                        RowKind::File => DashAction::Reveal(at),
                    };
                }
            },
            _ => {},
        }
        DashAction::Stay
    }

    /// The two lines on top: the root, then the volume.
    pub fn header(&self) -> (r: (String, String))
        ensures
            r.0@ == " deepscan · "@ + self.root@,
            r.1@ == disk_line(self.disk, self.snapshots as nat),
    {
        let mut top = " deepscan · ".to_owned();
        top.append(self.root.as_str());
        let mut line = " ".to_owned();
        if let Some(d) = &self.disk {
            line.append(human(d.used).as_str());
            line.append(" used of ");
            line.append(human(d.total).as_str());
            line.append("  ·  ");
            line.append(human(d.free).as_str());
            line.append(" free  ·  ");
        }
        line.append(decimal_text(self.snapshots as u64).as_str());
        line.append(" snapshot(s)");
        (top, line)
    }

    /// The lines of the sections, and the index of the one to highlight.
    pub fn lines(&self) -> (r: (Page, Option<usize>))
        requires
            self.wf(),
            order::views(self.sections@).len() + nav_of(
                order::views(self.sections@),
            ).len() <= usize::MAX,
        ensures
            r.0@ == section_lines(order::views(self.sections@)),
            match r.1 {
                Some(k) => self.nav@.len() > 0 && k == line_of_row(
                    order::views(self.sections@),
                    self.cursor as nat,
                ),
                None => self.nav@.len() == 0,
            },
    {
        let ghost all = order::views(self.sections@);
        let mut page = Page::new();
        let mut seen: usize = 0;
        let mut at: usize = 0;
        let mut s: usize = 0;
        assert(all.take(0) =~= Seq::<SectionView>::empty());
        while s < self.sections.len()
            invariant
                s <= self.sections@.len(),
                all == order::views(self.sections@),
                all.len() + nav_of(all).len() <= usize::MAX,
                page@ == section_lines(all.take(s as int)),
                seen == nav_of(all.take(s as int)).len(),
                self.cursor < seen ==> at == line_of_row(all.take(s as int), self.cursor as nat),
            decreases self.sections@.len() - s,
        {
            let section = &self.sections[s];
            let ghost start = page@;
            let ghost first = seen;
            let ghost here = order::views(section.rows@);
            let ghost done = all.take(s as int);
            let ghost next = all.take(s + 1);
            proof {
                assert(next.drop_last() =~= done);
                assert(next.last() == section@);
                lemma_lines_len(done);
                lemma_nav_prefix(all, s + 1);
            }
            let mut title = " ".to_owned();
            title.append(section.title.as_str());
            page.push(title);
            let mut i: usize = 0;
            let ghost head = seq![title@];
            assert(page@ =~= start + (head + row_lines(here.take(0))));
            while i < section.rows.len()
                invariant
                    i <= section.rows@.len(),
                    here == order::views(section.rows@),
                    start.len() == s + first,
                    page@ == start + (head + row_lines(here.take(i as int))),
                    head.len() == 1,
                    seen == first + i,
                    first + section.rows@.len() + s + 1 <= usize::MAX,
                    self.cursor < first ==> at == line_of_row(done, self.cursor as nat),
                    first <= self.cursor < seen ==> at == s + 1 + self.cursor,
                decreases section.rows@.len() - i,
            {
                let row = &section.rows[i];
                if seen == self.cursor {
                    at = s + 1 + seen;
                }
                let mut line = "   ".to_owned();
                line.append(align_right(human(row.bytes).as_str(), 10).as_str());
                line.append("  ");
                match &row.tag {
                    Some(t) => line.append(align_right(t.as_str(), 6).as_str()),
                    None => {
                        let none = String::new();
                        assert(none@ =~= text::nil());
                        line.append(align_right(none.as_str(), 6).as_str());
                    },
                }
                line.append("  ");
                line.append(row.label.as_str());
                proof {
                    assert(line@ == dash_line(row@));
                    assert((start + (head + row_lines(here.take(i as int)))).push(line@) =~= start
                        + (head + row_lines(here.take(i + 1))));
                }
                page.push(line);
                seen += 1;
                i += 1;
            }
            proof {
                assert(here.take(here.len() as int) =~= here);
                assert(nav_of(next).len() == nav_of(done).len() + here.len());
            }
            s += 1;
        }
        assert(all.take(all.len() as int) =~= all);
        if self.nav.len() > 0 {
            assert(nav_view(self.nav@).len() == nav_of(all).len());
            (page, Some(at))
        } else {
            (page, None)
        }
    }
}

/// The dashboard as it is drawn.
pub fn draw(dashboard: &Dashboard) -> (r: Screen)
    requires
        dashboard.wf(),
        order::views(dashboard.sections@).len() + nav_of(
            order::views(dashboard.sections@),
        ).len() <= usize::MAX,
    ensures
        r.top@ == Seq::empty().push(" deepscan · "@ + dashboard.root@).push(
            disk_line(dashboard.disk, dashboard.snapshots as nat),
        ),
        r.lines@ == section_lines(order::views(dashboard.sections@)),
        match r.selected {
            Some(k) => dashboard.nav@.len() > 0 && k == line_of_row(
                order::views(dashboard.sections@),
                dashboard.cursor as nat,
            ),
            None => dashboard.nav@.len() == 0,
        },
        r.footer@ == " ↑↓ move   → / enter  explore folder · reveal file   q quit"@,
        r.question is None,
{
    let (root, volume) = dashboard.header();
    let mut top = Page::new();
    top.push(root);
    top.push(volume);
    let (lines, selected) = dashboard.lines();
    Screen {
        top,
        lines,
        selected,
        footer: " ↑↓ move   → / enter  explore folder · reveal file   q quit",
        question: None,
    }
}

proof fn lemma_nav_prefix(sections: Seq<SectionView>, k: int)
    requires
        0 <= k <= sections.len(),
    ensures
        nav_of(sections.take(k)).len() <= nav_of(sections).len(),
    decreases sections.len(),
{
    if k < sections.len() {
        assert(sections.drop_last().take(k) =~= sections.take(k));
        lemma_nav_prefix(sections.drop_last(), k);
    } else {
        assert(sections.take(k) =~= sections);
    }
}

} // verus!
