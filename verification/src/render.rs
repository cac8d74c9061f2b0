//! The printed reports, line by line. A line that starts with a newline leaves one blank.

use vstd::prelude::*;

use crate::anomaly::{Anomaly, AnomalyKind};
use crate::engine::{ReclaimOutcome, ReclaimPlan, ReclaimResult, ReclaimTarget};
use crate::order;
use crate::report;
use crate::report::{
    human, Bucket, ChildSize, Confidence, DiskSpace, DuplicateGroup, Finding, LargeFile, Leftover,
    ScanReport, Severity, SpaceReport, TreeNode, UninstallOutcome, UninstallPlan,
};
use crate::text;
use crate::text::{align_left, align_right, decimal_text, Page};
use crate::tui::action::{TrashFailure, TrashOutcome};

verus! {

/// Children of one level of the printed tree.
pub const TOP_PER_LEVEL: usize = 12;

/// The codes that colour the output.
#[derive(Debug, Clone, Copy)]
pub struct Palette {
    pub bold: &'static str,
    pub dim: &'static str,
    pub red: &'static str,
    pub green: &'static str,
    pub yellow: &'static str,
    pub cyan: &'static str,
    pub reset: &'static str,
}

/// ANSI codes where colours are on, else nothing, so that piped output stays plain text.
pub fn palette(enabled: bool) -> (r: Palette)
    ensures
        r.bold@ == (if enabled { "\x1b[1m"@ } else { ""@ }),
        r.dim@ == (if enabled { "\x1b[2m"@ } else { ""@ }),
        r.red@ == (if enabled { "\x1b[31m"@ } else { ""@ }),
        r.green@ == (if enabled { "\x1b[32m"@ } else { ""@ }),
        r.yellow@ == (if enabled { "\x1b[33m"@ } else { ""@ }),
        r.cyan@ == (if enabled { "\x1b[36m"@ } else { ""@ }),
        r.reset@ == (if enabled { "\x1b[0m"@ } else { ""@ }),
{
    if enabled {
        Palette {
            bold: "\x1b[1m",
            dim: "\x1b[2m",
            red: "\x1b[31m",
            green: "\x1b[32m",
            yellow: "\x1b[33m",
            cyan: "\x1b[36m",
            reset: "\x1b[0m",
        }
    } else {
        Palette { bold: "", dim: "", red: "", green: "", yellow: "", cyan: "", reset: "" }
    }
}

/// No lines.
pub open spec fn no_lines() -> Seq<Seq<char>> {
    Seq::empty()
}

/// The age column of a file.
pub open spec fn age_text(d: u64) -> Seq<char> {
    text::decimal(d as nat)
        + "d"@
}

fn age_line(d: u64) -> (r: String)
    ensures
        r@ == age_text(d),
{
    let mut r = decimal_text(d as u64);
    r.append("d");
    r
}

/// The age of a file in days, or a question mark.
pub open spec fn file_age(days: Option<u64>) -> Seq<char> {
    match days {
        Some(d) => age_text(d),
        None => "?"@,
    }
}

fn file_age_column(days: Option<u64>) -> (r: String)
    ensures
        r@ == file_age(days),
{
    match days {
        Some(d) => age_line(d),
        None => "?".to_owned(),
    }
}

/// A large file.
pub open spec fn large_text(p: Palette, f: LargeFile) -> Seq<char> {
    "  "@
        + p.cyan@
        + text::right_aligned(report::human_text(f.bytes as nat), 11)
        + p.reset@
        + "  "@
        + p.dim@
        + text::right_aligned(file_age(f.modified_days), 5)
        + " old"@
        + p.reset@
        + "  "@
        + f.path@
}

fn large_line(p: &Palette, f: &LargeFile) -> (r: String)
    ensures
        r@ == large_text(*p, *f),
{
    let mut r = "  ".to_owned();
    r.append(p.cyan);
    r.append(align_right(human(f.bytes).as_str(), 11).as_str());
    r.append(p.reset);
    r.append("  ");
    r.append(p.dim);
    r.append(align_right(file_age_column(f.modified_days).as_str(), 5).as_str());
    r.append(" old");
    r.append(p.reset);
    r.append("  ");
    r.append(f.path.as_str());
    r
}

/// The large files.
pub open spec fn large_lines(p: Palette, items: Seq<LargeFile>) -> Seq<Seq<char>> {
    Seq::new(items.len(), |i: int| large_text(p, items[i]))
}

fn large_page(p: &Palette, items: &Vec<LargeFile>) -> (r: Page)
    ensures
        r@ == large_lines(*p, items@),
{
    let ghost all = large_lines(*p, items@);
    let mut page = Page::new();
    let mut i: usize = 0;
    assert(page@ =~= all.take(0));
    while i < items.len()
        invariant
            i <= items@.len(),
            all == large_lines(*p, items@),
            page@ == all.take(i as int),
        decreases items@.len() - i,
    {
        let line = large_line(p, &items[i]);
        assert(all.take(i as int).push(line@) =~= all.take(i + 1));
        page.push(line);
        i += 1;
    }
    assert(all.take(all.len() as int) =~= all);
    page
}

/// What a list of large files is called.
pub open spec fn large_label(older: Option<u64>) -> Seq<char> {
    match older {
        Some(days) => "largest files not modified in "@ + text::decimal(days as nat) + "+ days"@,
        None => "largest files"@,
    }
}

fn large_label_of(older: Option<u64>) -> (r: String)
    ensures
        r@ == large_label(older),
{
    match older {
        Some(days) => {
            let mut r = "largest files not modified in ".to_owned();
            r.append(decimal_text(days).as_str());
            r.append("+ days");
            r
        },
        None => "largest files".to_owned(),
    }
}

/// The head of the list of large files.
pub open spec fn large_head_text(p: Palette, label: Seq<char>) -> Seq<char> {
    p.bold@
        + "deepscan large"@
        + p.reset@
        + " "@
        + p.dim@
        + "· "@
        + label
        + p.reset@
}

fn large_head_line(p: &Palette, label: &str) -> (r: String)
    ensures
        r@ == large_head_text(*p, label@),
{
    let mut r = p.bold.to_owned();
    r.append("deepscan large");
    r.append(p.reset);
    r.append(" ");
    r.append(p.dim);
    r.append("· ");
    r.append(label);
    r.append(p.reset);
    r
}

/// No large files.
pub open spec fn large_none_text(p: Palette) -> Seq<char> {
    "  "@
        + p.dim@
        + "nothing above the size threshold"@
        + p.reset@
}

fn large_none_line(p: &Palette) -> (r: String)
    ensures
        r@ == large_none_text(*p),
{
    let mut r = "  ".to_owned();
    r.append(p.dim);
    r.append("nothing above the size threshold");
    r.append(p.reset);
    r
}

/// The report on large files.
pub open spec fn large_report(p: Palette, files: Seq<LargeFile>, older: Option<u64>) -> Seq<
    Seq<char>,
> {
    let head = no_lines().push(large_head_text(p, large_label(older)));
    if files.len() == 0 { head.push(large_none_text(p)) } else { head + large_lines(p, files) }
}

/// The report on large files.
pub fn render_large(p: &Palette, files: &Vec<LargeFile>, older: Option<u64>) -> (r: Page)
    ensures
        r@ == large_report(*p, files@, older),
{
    let mut page = Page::new();
    let label = large_label_of(older);
    page.push(large_head_line(p, label.as_str()));
    if files.len() == 0 {
        page.push(large_none_line(p));
    } else {
        page.append(large_page(p, files));
    }
    page
}

/// A group of duplicates.
pub open spec fn dupe_text(p: Palette, g: DuplicateGroup) -> Seq<char> {
    "  "@
        + p.green@
        + text::right_aligned(report::human_text(g.wasted as nat), 11)
        + p.reset@
        + " wasted  "@
        + p.dim@
        + "("@
        + text::decimal(g.paths@.len())
        + " copies × "@
        + report::human_text(g.bytes as nat)
        + ")"@
        + p.reset@
}

fn dupe_line(p: &Palette, g: &DuplicateGroup) -> (r: String)
    ensures
        r@ == dupe_text(*p, *g),
{
    let mut r = "  ".to_owned();
    r.append(p.green);
    r.append(align_right(human(g.wasted).as_str(), 11).as_str());
    r.append(p.reset);
    r.append(" wasted  ");
    r.append(p.dim);
    r.append("(");
    r.append(decimal_text(g.paths.len() as u64).as_str());
    r.append(" copies × ");
    r.append(human(g.bytes).as_str());
    r.append(")");
    r.append(p.reset);
    r
}

/// A copy of a group.
pub open spec fn dupe_path_text(p: Palette, at: String) -> Seq<char> {
    "      "@
        + p.dim@
        + at@
        + p.reset@
}

fn dupe_path_line(p: &Palette, at: &String) -> (r: String)
    ensures
        r@ == dupe_path_text(*p, *at),
{
    let mut r = "      ".to_owned();
    r.append(p.dim);
    r.append(at.as_str());
    r.append(p.reset);
    r
}

/// The copies of a group.
pub open spec fn dupe_path_lines(p: Palette, items: Seq<String>) -> Seq<Seq<char>> {
    Seq::new(items.len(), |i: int| dupe_path_text(p, items[i]))
}

fn dupe_path_page(p: &Palette, items: &Vec<String>) -> (r: Page)
    ensures
        r@ == dupe_path_lines(*p, items@),
{
    let ghost all = dupe_path_lines(*p, items@);
    let mut page = Page::new();
    let mut i: usize = 0;
    assert(page@ =~= all.take(0));
    while i < items.len()
        invariant
            i <= items@.len(),
            all == dupe_path_lines(*p, items@),
            page@ == all.take(i as int),
        decreases items@.len() - i,
    {
        let line = dupe_path_line(p, &items[i]);
        assert(all.take(i as int).push(line@) =~= all.take(i + 1));
        page.push(line);
        i += 1;
    }
    assert(all.take(all.len() as int) =~= all);
    page
}

/// A group of duplicates with its copies.
pub open spec fn dupe_block(p: Palette, g: DuplicateGroup) -> Seq<Seq<char>> {
    no_lines().push(dupe_text(p, g)) + dupe_path_lines(p, g.paths@)
}

fn dupe_lines_of(p: &Palette, g: &DuplicateGroup) -> (r: Page)
    ensures
        r@ == dupe_block(*p, *g),
{
    let mut page = Page::new();
    page.push(dupe_line(p, g));
    page.append(dupe_path_page(p, &g.paths));
    page
}

/// The groups of duplicates.
pub open spec fn dupe_blocks(p: Palette, items: Seq<DuplicateGroup>) -> Seq<Seq<char>>
    decreases items.len(),
{
    if items.len() == 0 {
        no_lines()
    } else {
        dupe_blocks(p, items.drop_last()) + dupe_block(p, items.last())
    }
}

fn dupe_page(p: &Palette, items: &Vec<DuplicateGroup>, n: usize) -> (r: Page)
    requires
        n <= items@.len(),
    ensures
        r@ == dupe_blocks(*p, items@.take(n as int)),
{
    let mut page = Page::new();
    let mut i: usize = 0;
    assert(items@.take(0) =~= Seq::<DuplicateGroup>::empty());
    while i < n
        invariant
            i <= n <= items@.len(),
            page@ == dupe_blocks(*p, items@.take(i as int)),
        decreases n - i,
    {
        proof {
            assert(items@.take(i + 1).drop_last() =~= items@.take(i as int));
            assert(items@.take(i + 1).last() == items@[i as int]);
        }
        page.append(dupe_lines_of(p, &items[i]));
        i += 1;
    }
    page
}

/// What the copies of a group waste.
pub open spec fn waste() -> spec_fn(DuplicateGroup) -> nat {
    |g: DuplicateGroup| g.wasted as nat
}

/// What the copies of all groups waste.
pub fn total_waste(groups: &Vec<DuplicateGroup>) -> (r: u64)
    requires
        order::sum(groups@, waste()) <= u64::MAX,
    ensures
        r == order::sum(groups@, waste()),
{
    let mut sum: u64 = 0;
    let mut i: usize = 0;
    assert(groups@.take(0) =~= Seq::<DuplicateGroup>::empty());
    while i < groups.len()
        invariant
            i <= groups@.len(),
            order::sum(groups@, waste()) <= u64::MAX,
            sum == order::sum(groups@.take(i as int), waste()),
        decreases groups@.len() - i,
    {
        proof {
            order::lemma_sum_step(groups@, i as int, waste());
        }
        sum += groups[i].wasted;
        i += 1;
    }
    assert(groups@.take(groups@.len() as int) =~= groups@);
    sum
}

/// An `s` behind anything but one.
pub open spec fn plural(n: nat) -> Seq<char> {
    if n == 1 { ""@ } else { "s"@ }
}

fn plural_of(n: usize) -> (r: &'static str)
    ensures
        r@ == plural(n as nat),
{
    if n == 1 {
        ""
    } else {
        "s"
    }
}

/// The head of the list of duplicates.
pub open spec fn dupes_head_text(p: Palette, wasted: u64, sets: usize) -> Seq<char> {
    p.bold@
        + "deepscan dupes"@
        + p.reset@
        + " "@
        + p.dim@
        + "· "@
        + report::human_text(wasted as nat)
        + " reclaimable across "@
        + text::decimal(sets as nat)
        + " duplicate set"@
        + plural(sets as nat)
        + p.reset@
}

fn dupes_head_line(p: &Palette, wasted: u64, sets: usize) -> (r: String)
    ensures
        r@ == dupes_head_text(*p, wasted, sets),
{
    let mut r = p.bold.to_owned();
    r.append("deepscan dupes");
    r.append(p.reset);
    r.append(" ");
    r.append(p.dim);
    r.append("· ");
    r.append(human(wasted).as_str());
    r.append(" reclaimable across ");
    r.append(decimal_text(sets as u64).as_str());
    r.append(" duplicate set");
    r.append(plural_of(sets));
    r.append(p.reset);
    r
}

/// No duplicates.
pub open spec fn dupes_none_text(p: Palette) -> Seq<char> {
    "  "@
        + p.dim@
        + "no exact duplicates found"@
        + p.reset@
}

fn dupes_none_line(p: &Palette) -> (r: String)
    ensures
        r@ == dupes_none_text(*p),
{
    let mut r = "  ".to_owned();
    r.append(p.dim);
    r.append("no exact duplicates found");
    r.append(p.reset);
    r
}

/// Groups that are not shown.
pub open spec fn dupes_more_text(p: Palette, hidden: usize) -> Seq<char> {
    "  "@
        + p.dim@
        + "… "@
        + text::decimal(hidden as nat)
        + " more set(s)"@
        + p.reset@
}

fn dupes_more_line(p: &Palette, hidden: usize) -> (r: String)
    ensures
        r@ == dupes_more_text(*p, hidden),
{
    let mut r = "  ".to_owned();
    r.append(p.dim);
    r.append("… ");
    r.append(decimal_text(hidden as u64).as_str());
    r.append(" more set(s)");
    r.append(p.reset);
    r
}

/// The report on duplicates, of which the first `top` groups are shown.
pub open spec fn dupes_report(p: Palette, groups: Seq<DuplicateGroup>, top: nat) -> Seq<
    Seq<char>,
> {
    let wasted = order::sum(groups, waste());
    let head = no_lines().push(dupes_head_text(p, wasted as u64, groups.len() as usize));
    if groups.len() == 0 {
        head.push(dupes_none_text(p))
    } else if groups.len() > top {
        (head + dupe_blocks(p, groups.take(top as int))).push(
            dupes_more_text(p, (groups.len() - top) as usize),
        )
    } else {
        head + dupe_blocks(p, groups)
    }
}

/// The report on duplicates, of which the first `top` groups are shown.
pub fn render_dupes(p: &Palette, groups: &Vec<DuplicateGroup>, top: usize) -> (r: Page)
    requires
        order::sum(groups@, waste()) <= u64::MAX,
    ensures
        r@ == dupes_report(*p, groups@, top as nat),
{
    let mut page = Page::new();
    let n = groups.len();
    page.push(dupes_head_line(p, total_waste(groups), n));
    if n == 0 {
        page.push(dupes_none_line(p));
    } else if n > top {
        page.append(dupe_page(p, groups, top));
        page.push(dupes_more_line(p, n - top));
    } else {
        assert(groups@.take(n as int) =~= groups@);
        page.append(dupe_page(p, groups, n));
    }
    page
}

/// The label and the colour of a confidence.
pub open spec fn confidence_style(p: Palette, c: Confidence) -> (Seq<char>, Seq<char>) {
    match c {
        Confidence::High => ("high"@, p.green@),
        Confidence::Medium => ("med?"@, p.yellow@),
    }
}

/// The label of a confidence.
pub fn confidence_label(c: Confidence) -> (r: &'static str)
    ensures
        forall|p: Palette| r@ == (#[trigger] confidence_style(p, c)).0,
{
    match c {
        Confidence::High => "high",
        Confidence::Medium => "med?",
    }
}

fn confidence_colour(p: &Palette, c: Confidence) -> (r: &'static str)
    ensures
        r@ == confidence_style(*p, c).1,
{
    match c {
        Confidence::High => p.green,
        Confidence::Medium => p.yellow,
    }
}

/// A leftover.
pub open spec fn leftover_text(p: Palette, l: Leftover) -> Seq<char> {
    "  "@
        + text::right_aligned(report::human_text(l.bytes as nat), 11)
        + "  "@
        + confidence_style(p, l.confidence).1
        + "["@
        + confidence_style(p, l.confidence).0
        + "]"@
        + p.reset@
        + " "@
        + p.dim@
        + l.location@
        + p.reset@
        + "  "@
        + l.path@
}

fn leftover_line(p: &Palette, l: &Leftover) -> (r: String)
    ensures
        r@ == leftover_text(*p, *l),
{
    let mut r = "  ".to_owned();
    r.append(align_right(human(l.bytes).as_str(), 11).as_str());
    r.append("  ");
    r.append(confidence_colour(p, l.confidence));
    r.append("[");
    r.append(confidence_label(l.confidence));
    r.append("]");
    r.append(p.reset);
    r.append(" ");
    r.append(p.dim);
    r.append(l.location.as_str());
    r.append(p.reset);
    r.append("  ");
    r.append(l.path.as_str());
    r
}

/// The leftovers.
pub open spec fn leftover_lines(p: Palette, items: Seq<Leftover>) -> Seq<Seq<char>> {
    Seq::new(items.len(), |i: int| leftover_text(p, items[i]))
}

fn leftover_page(p: &Palette, items: &Vec<Leftover>) -> (r: Page)
    ensures
        r@ == leftover_lines(*p, items@),
{
    let ghost all = leftover_lines(*p, items@);
    let mut page = Page::new();
    let mut i: usize = 0;
    assert(page@ =~= all.take(0));
    while i < items.len()
        invariant
            i <= items@.len(),
            all == leftover_lines(*p, items@),
            page@ == all.take(i as int),
        decreases items@.len() - i,
    {
        let line = leftover_line(p, &items[i]);
        assert(all.take(i as int).push(line@) =~= all.take(i + 1));
        page.push(line);
        i += 1;
    }
    assert(all.take(all.len() as int) =~= all);
    page
}

/// The head of an uninstall.
pub open spec fn uninstall_head_text(p: Palette, name: Seq<char>) -> Seq<char> {
    p.bold@
        + "deepscan uninstall"@
        + p.reset@
        + " "@
        + p.dim@
        + "· "@
        + name
        + p.reset@
}

fn uninstall_head_line(p: &Palette, name: &str) -> (r: String)
    ensures
        r@ == uninstall_head_text(*p, name@),
{
    let mut r = p.bold.to_owned();
    r.append("deepscan uninstall");
    r.append(p.reset);
    r.append(" ");
    r.append(p.dim);
    r.append("· ");
    r.append(name);
    r.append(p.reset);
    r
}

/// The bundle id of an app.
pub open spec fn bundle_id_text(p: Palette, id: Seq<char>) -> Seq<char> {
    "  "@
        + p.dim@
        + "bundle id: "@
        + id
        + p.reset@
}

fn bundle_id_line(p: &Palette, id: &str) -> (r: String)
    ensures
        r@ == bundle_id_text(*p, id@),
{
    let mut r = "  ".to_owned();
    r.append(p.dim);
    r.append("bundle id: ");
    r.append(id);
    r.append(p.reset);
    r
}

/// An app bundle.
pub open spec fn app_text(p: Palette, bytes: u64, at: Seq<char>) -> Seq<char> {
    "  "@
        + p.cyan@
        + text::right_aligned(report::human_text(bytes as nat), 11)
        + p.reset@
        + "  "@
        + p.dim@
        + "app"@
        + p.reset@
        + "     "@
        + at
}

fn app_line(p: &Palette, bytes: u64, at: &str) -> (r: String)
    ensures
        r@ == app_text(*p, bytes, at@),
{
    let mut r = "  ".to_owned();
    r.append(p.cyan);
    r.append(align_right(human(bytes).as_str(), 11).as_str());
    r.append(p.reset);
    r.append("  ");
    r.append(p.dim);
    r.append("app");
    r.append(p.reset);
    r.append("     ");
    r.append(at);
    r
}

/// No app bundle.
pub open spec fn app_missing_text(p: Palette) -> Seq<char> {
    "  "@
        + p.dim@
        + "(app bundle not found — showing matched leftovers only)"@
        + p.reset@
}

fn app_missing_line(p: &Palette) -> (r: String)
    ensures
        r@ == app_missing_text(*p),
{
    let mut r = "  ".to_owned();
    r.append(p.dim);
    r.append("(app bundle not found — showing matched leftovers only)");
    r.append(p.reset);
    r
}

/// No leftovers.
pub open spec fn leftover_none_text(p: Palette) -> Seq<char> {
    "  "@
        + p.dim@
        + "no leftover files found"@
        + p.reset@
}

fn leftover_none_line(p: &Palette) -> (r: String)
    ensures
        r@ == leftover_none_text(*p),
{
    let mut r = "  ".to_owned();
    r.append(p.dim);
    r.append("no leftover files found");
    r.append(p.reset);
    r
}

/// The total of an uninstall.
pub open spec fn uninstall_total_text(p: Palette, bytes: u64) -> Seq<char> {
    "\n  "@
        + p.bold@
        + "total: "@
        + report::human_text(bytes as nat)
        + p.reset@
}

fn uninstall_total_line(p: &Palette, bytes: u64) -> (r: String)
    ensures
        r@ == uninstall_total_text(*p, bytes),
{
    let mut r = "\n  ".to_owned();
    r.append(p.bold);
    r.append("total: ");
    r.append(human(bytes).as_str());
    r.append(p.reset);
    r
}

/// What an uninstall would remove.
pub open spec fn uninstall_report(p: Palette, plan: UninstallPlan) -> Seq<Seq<char>> {
    let head = no_lines().push(uninstall_head_text(p, plan.app_name@));
    let named = match plan.bundle_id {
        Some(id) => head.push(bundle_id_text(p, id@)),
        None => head,
    };
    let located = match plan.app_path {
        Some(at) => named.push(app_text(p, plan.app_bytes, at@)),
        None => named.push(app_missing_text(p)),
    };
    let listed = if plan.leftovers@.len() == 0 {
        located.push(leftover_none_text(p))
    } else {
        located + leftover_lines(p, plan.leftovers@)
    };
    listed.push(uninstall_total_text(p, plan.total_bytes))
}

/// What an uninstall would remove.
pub fn render_uninstall(p: &Palette, plan: &UninstallPlan) -> (r: Page)
    ensures
        r@ == uninstall_report(*p, *plan),
{
    let mut page = Page::new();
    page.push(uninstall_head_line(p, plan.app_name.as_str()));
    if let Some(id) = &plan.bundle_id {
        page.push(bundle_id_line(p, id.as_str()));
    }
    match &plan.app_path {
        Some(at) => page.push(app_line(p, plan.app_bytes, at.as_str())),
        None => page.push(app_missing_line(p)),
    }
    if plan.leftovers.len() == 0 {
        page.push(leftover_none_line(p));
    } else {
        page.append(leftover_page(p, &plan.leftovers));
    }
    page.push(uninstall_total_line(p, plan.total_bytes));
    page
}

/// The hint below a dry run of an uninstall.
pub open spec fn uninstall_hint_text(p: Palette) -> Seq<char> {
    "\n  "@ + p.dim@ + "--apply moves all of the above to the Trash (recoverable)."@ + p.reset@
}

/// The hint below a dry run of an uninstall.
pub fn uninstall_hint(p: &Palette) -> (r: String)
    ensures
        r@ == uninstall_hint_text(*p),
{
    let mut r = "\n  ".to_owned();
    r.append(p.dim);
    r.append("--apply moves all of the above to the Trash (recoverable).");
    r.append(p.reset);
    r
}

/// A reason, or `failed` where there is none.
pub open spec fn reason(error: Option<String>) -> Seq<char> {
    match error {
        Some(e) => e@,
        None => "failed"@,
    }
}

fn reason_of(error: &Option<String>) -> (r: String)
    ensures
        r@ == reason(*error),
{
    match error {
        Some(e) => e.clone(),
        None => "failed".to_owned(),
    }
}

/// A path that was trashed.
pub open spec fn trashed_text(p: Palette, o: UninstallOutcome) -> Seq<char> {
    "  "@
        + p.green@
        + "trashed"@
        + p.reset@
        + "  "@
        + text::right_aligned(report::human_text(o.bytes as nat), 11)
        + "  "@
        + o.path@
}

fn trashed_line(p: &Palette, o: &UninstallOutcome) -> (r: String)
    ensures
        r@ == trashed_text(*p, *o),
{
    let mut r = "  ".to_owned();
    r.append(p.green);
    r.append("trashed");
    r.append(p.reset);
    r.append("  ");
    r.append(align_right(human(o.bytes).as_str(), 11).as_str());
    r.append("  ");
    r.append(o.path.as_str());
    r
}

/// A path that was not trashed.
pub open spec fn kept_text(p: Palette, o: UninstallOutcome) -> Seq<char> {
    "  "@
        + p.red@
        + "skip"@
        + p.reset@
        + "     "@
        + text::right_aligned(report::human_text(o.bytes as nat), 11)
        + "  "@
        + o.path@
        + " "@
        + p.dim@
        + "("@
        + reason(o.error)
        + ")"@
        + p.reset@
}

fn kept_line(p: &Palette, o: &UninstallOutcome) -> (r: String)
    ensures
        r@ == kept_text(*p, *o),
{
    let mut r = "  ".to_owned();
    r.append(p.red);
    r.append("skip");
    r.append(p.reset);
    r.append("     ");
    r.append(align_right(human(o.bytes).as_str(), 11).as_str());
    r.append("  ");
    r.append(o.path.as_str());
    r.append(" ");
    r.append(p.dim);
    r.append("(");
    r.append(reason_of(&o.error).as_str());
    r.append(")");
    r.append(p.reset);
    r
}

/// What became of a path.
pub open spec fn removed_text(p: Palette, o: UninstallOutcome) -> Seq<char> {
    if o.ok { trashed_text(p, o) } else { kept_text(p, o) }
}

fn removed_line(p: &Palette, o: &UninstallOutcome) -> (r: String)
    ensures
        r@ == removed_text(*p, *o),
{
    if o.ok {
        trashed_line(p, o)
    } else {
        kept_line(p, o)
    }
}

/// What became of the paths.
pub open spec fn removed_lines(p: Palette, items: Seq<UninstallOutcome>) -> Seq<Seq<char>> {
    Seq::new(items.len(), |i: int| removed_text(p, items[i]))
}

fn removed_page(p: &Palette, items: &Vec<UninstallOutcome>) -> (r: Page)
    ensures
        r@ == removed_lines(*p, items@),
{
    let ghost all = removed_lines(*p, items@);
    let mut page = Page::new();
    let mut i: usize = 0;
    assert(page@ =~= all.take(0));
    while i < items.len()
        invariant
            i <= items@.len(),
            all == removed_lines(*p, items@),
            page@ == all.take(i as int),
        decreases items@.len() - i,
    {
        let line = removed_line(p, &items[i]);
        assert(all.take(i as int).push(line@) =~= all.take(i + 1));
        page.push(line);
        i += 1;
    }
    assert(all.take(all.len() as int) =~= all);
    page
}

/// How much was trashed.
pub open spec fn moved_text(p: Palette, bytes: u64) -> Seq<char> {
    "\n  "@
        + p.bold@
        + "Moved "@
        + report::human_text(bytes as nat)
        + " to the Trash."@
        + p.reset@
}

fn moved_line(p: &Palette, bytes: u64) -> (r: String)
    ensures
        r@ == moved_text(*p, bytes),
{
    let mut r = "\n  ".to_owned();
    r.append(p.bold);
    r.append("Moved ");
    r.append(human(bytes).as_str());
    r.append(" to the Trash.");
    r.append(p.reset);
    r
}

/// The bytes of a path that was trashed.
pub open spec fn trashed_bytes() -> spec_fn(UninstallOutcome) -> nat {
    |o: UninstallOutcome|
        if o.ok {
            o.bytes as nat
        } else {
            0
        }
}

/// What became of an uninstall: a line for each removal, then what was moved in all.
pub open spec fn removed_report(p: Palette, outcomes: Seq<UninstallOutcome>) -> Seq<Seq<char>> {
    removed_lines(p, outcomes).push(
        moved_text(p, order::sum(outcomes, trashed_bytes()) as u64),
    )
}

/// What became of an uninstall.
pub fn render_removed(p: &Palette, outcomes: &Vec<UninstallOutcome>) -> (r: Page)
    requires
        order::sum(outcomes@, trashed_bytes()) <= u64::MAX,
    ensures
        r@ == removed_report(*p, outcomes@),
{
    let mut freed: u64 = 0;
    let mut i: usize = 0;
    assert(outcomes@.take(0) =~= Seq::<UninstallOutcome>::empty());
    while i < outcomes.len()
        invariant
            i <= outcomes@.len(),
            order::sum(outcomes@, trashed_bytes()) <= u64::MAX,
            freed == order::sum(outcomes@.take(i as int), trashed_bytes()),
        decreases outcomes@.len() - i,
    {
        proof {
            order::lemma_sum_step(outcomes@, i as int, trashed_bytes());
        }
        if outcomes[i].ok {
            freed += outcomes[i].bytes;
        }
        i += 1;
    }
    assert(outcomes@.take(outcomes@.len() as int) =~= outcomes@);
    let mut page = removed_page(p, outcomes);
    page.push(moved_line(p, freed));
    page
}

/// The head of a space report.
pub open spec fn space_head_text(p: Palette, root: Seq<char>) -> Seq<char> {
    p.bold@
        + "deepscan space"@
        + p.reset@
        + " "@
        + p.dim@
        + "· "@
        + root
        + p.reset@
}

fn space_head_line(p: &Palette, root: &str) -> (r: String)
    ensures
        r@ == space_head_text(*p, root@),
{
    let mut r = p.bold.to_owned();
    r.append("deepscan space");
    r.append(p.reset);
    r.append(" ");
    r.append(p.dim);
    r.append("· ");
    r.append(root);
    r.append(p.reset);
    r
}

/// The capacity of a volume.
pub open spec fn capacity_text(d: DiskSpace) -> Seq<char> {
    "  "@
        + text::right_aligned(report::human_text(d.total as nat), 11)
        + "  capacity"@
}

fn capacity_line(d: &DiskSpace) -> (r: String)
    ensures
        r@ == capacity_text(*d),
{
    let mut r = "  ".to_owned();
    r.append(align_right(human(d.total).as_str(), 11).as_str());
    r.append("  capacity");
    r
}

/// What is used of a volume.
pub open spec fn used_text(p: Palette, d: DiskSpace, pct: u64) -> Seq<char> {
    "  "@
        + text::right_aligned(report::human_text(d.used as nat), 11)
        + "  used  "@
        + p.dim@
        + "("@
        + text::decimal(pct as nat)
        + "%)"@
        + p.reset@
}

fn used_line(p: &Palette, d: &DiskSpace, pct: u64) -> (r: String)
    ensures
        r@ == used_text(*p, *d, pct),
{
    let mut r = "  ".to_owned();
    r.append(align_right(human(d.used).as_str(), 11).as_str());
    r.append("  used  ");
    r.append(p.dim);
    r.append("(");
    r.append(decimal_text(pct as u64).as_str());
    r.append("%)");
    r.append(p.reset);
    r
}

/// What is free on a volume.
pub open spec fn free_text(p: Palette, d: DiskSpace) -> Seq<char> {
    "  "@
        + p.cyan@
        + text::right_aligned(report::human_text(d.free as nat), 11)
        + p.reset@
        + "  free"@
}

fn free_line(p: &Palette, d: &DiskSpace) -> (r: String)
    ensures
        r@ == free_text(*p, *d),
{
    let mut r = "  ".to_owned();
    r.append(p.cyan);
    r.append(align_right(human(d.free).as_str(), 11).as_str());
    r.append(p.reset);
    r.append("  free");
    r
}

/// An unknown volume.
pub open spec fn no_disk_text(p: Palette) -> Seq<char> {
    "  "@
        + p.dim@
        + "(disk capacity unavailable on this platform)"@
        + p.reset@
}

fn no_disk_line(p: &Palette) -> (r: String)
    ensures
        r@ == no_disk_text(*p),
{
    let mut r = "  ".to_owned();
    r.append(p.dim);
    r.append("(disk capacity unavailable on this platform)");
    r.append(p.reset);
    r
}

/// No snapshots.
pub open spec fn no_snapshots_text(p: Palette) -> Seq<char> {
    "  "@
        + p.dim@
        + "no local APFS snapshots"@
        + p.reset@
}

fn no_snapshots_line(p: &Palette) -> (r: String)
    ensures
        r@ == no_snapshots_text(*p),
{
    let mut r = "  ".to_owned();
    r.append(p.dim);
    r.append("no local APFS snapshots");
    r.append(p.reset);
    r
}

/// The head of the list of snapshots.
pub open spec fn snapshots_head_text(p: Palette, n: usize) -> Seq<char> {
    "  "@
        + p.bold@
        + "Local snapshots: "@
        + text::decimal(n as nat)
        + p.reset@
        + " "@
        + p.dim@
        + "(macOS does not expose per-snapshot sizes)"@
        + p.reset@
}

fn snapshots_head_line(p: &Palette, n: usize) -> (r: String)
    ensures
        r@ == snapshots_head_text(*p, n),
{
    let mut r = "  ".to_owned();
    r.append(p.bold);
    r.append("Local snapshots: ");
    r.append(decimal_text(n as u64).as_str());
    r.append(p.reset);
    r.append(" ");
    r.append(p.dim);
    r.append("(macOS does not expose per-snapshot sizes)");
    r.append(p.reset);
    r
}

/// A snapshot.
pub open spec fn snapshot_text(p: Palette, s: String) -> Seq<char> {
    "    "@
        + p.dim@
        + s@
        + p.reset@
}

fn snapshot_line(p: &Palette, s: &String) -> (r: String)
    ensures
        r@ == snapshot_text(*p, *s),
{
    let mut r = "    ".to_owned();
    r.append(p.dim);
    r.append(s.as_str());
    r.append(p.reset);
    r
}

/// The snapshots.
pub open spec fn snapshot_lines(p: Palette, items: Seq<String>) -> Seq<Seq<char>> {
    Seq::new(items.len(), |i: int| snapshot_text(p, items[i]))
}

fn snapshot_page(p: &Palette, items: &Vec<String>) -> (r: Page)
    ensures
        r@ == snapshot_lines(*p, items@),
{
    let ghost all = snapshot_lines(*p, items@);
    let mut page = Page::new();
    let mut i: usize = 0;
    assert(page@ =~= all.take(0));
    while i < items.len()
        invariant
            i <= items@.len(),
            all == snapshot_lines(*p, items@),
            page@ == all.take(i as int),
        decreases items@.len() - i,
    {
        let line = snapshot_line(p, &items[i]);
        assert(all.take(i as int).push(line@) =~= all.take(i + 1));
        page.push(line);
        i += 1;
    }
    assert(all.take(all.len() as int) =~= all);
    page
}

/// How to thin the snapshots.
pub open spec fn thin_text(command: Seq<char>) -> Seq<char> {
    "  reclaim:  "@
        + command
}

fn thin_line(command: &str) -> (r: String)
    ensures
        r@ == thin_text(command@),
{
    let mut r = "  reclaim:  ".to_owned();
    r.append(command);
    r
}

/// The gap explained.
pub open spec fn gap_one_text(p: Palette) -> Seq<char> {
    "  "@
        + p.dim@
        + "The \"System Data\" gap = these snapshots + purgeable caches macOS reclaims"@
        + p.reset@
}

fn gap_one_line(p: &Palette) -> (r: String)
    ensures
        r@ == gap_one_text(*p),
{
    let mut r = "  ".to_owned();
    r.append(p.dim);
    r.append("The \"System Data\" gap = these snapshots + purgeable caches macOS reclaims");
    r.append(p.reset);
    r
}

/// The gap explained.
pub open spec fn gap_two_text(p: Palette) -> Seq<char> {
    "  "@
        + p.dim@
        + "on demand. Their exact sizes are not exposed by tmutil/diskutil — that's the"@
        + p.reset@
}

fn gap_two_line(p: &Palette) -> (r: String)
    ensures
        r@ == gap_two_text(*p),
{
    let mut r = "  ".to_owned();
    r.append(p.dim);
    r.append("on demand. Their exact sizes are not exposed by tmutil/diskutil — that's the");
    r.append(p.reset);
    r
}

/// The gap explained.
pub open spec fn gap_three_text(p: Palette) -> Seq<char> {
    "  "@
        + p.dim@
        + "honest limit. Run `deepscan scan --tree` to see the files you CAN account for."@
        + p.reset@
}

fn gap_three_line(p: &Palette) -> (r: String)
    ensures
        r@ == gap_three_text(*p),
{
    let mut r = "  ".to_owned();
    r.append(p.dim);
    r.append("honest limit. Run `deepscan scan --tree` to see the files you CAN account for.");
    r.append(p.reset);
    r
}

/// How much of a volume is used, in percent, rounded down.
pub open spec fn used_percent(d: DiskSpace) -> u64 {
    if d.total == 0 { 0 } else { ((d.used * 100) / d.total as int) as u64 }
}

fn used_percent_of(d: &DiskSpace) -> (r: u64)
    requires
        d.used * 100 <= u64::MAX,
    ensures
        r == used_percent(*d),
{
    if d.total == 0 {
        0
    } else {
        (d.used * 100) / d.total
    }
}

/// Whether the share of a volume that is used can be counted.
pub open spec fn disk_fits(disk: Option<DiskSpace>) -> bool {
    disk matches Some(d) ==> d.used * 100 <= u64::MAX
}

/// The space report.
pub open spec fn space_lines(p: Palette, root: Seq<char>, rep: SpaceReport) -> Seq<Seq<char>> {
    let head = no_lines().push(space_head_text(p, root));
    let volume = match rep.disk {
        Some(d) => head.push(capacity_text(d)).push(used_text(p, d, used_percent(d))).push(
            free_text(p, d),
        ),
        None => head.push(no_disk_text(p)),
    };
    let gap = volume.push(""@);
    let listed = if rep.snapshots@.len() == 0 {
        gap.push(no_snapshots_text(p))
    } else {
        let names = gap.push(snapshots_head_text(p, rep.snapshots@.len() as usize))
            + snapshot_lines(p, rep.snapshots@);
        match rep.reclaim_snapshots {
            Some(c) => names.push(thin_text(c@)),
            None => names,
        }
    };
    listed.push(""@).push(gap_one_text(p)).push(gap_two_text(p)).push(gap_three_text(p))
}

/// The space report.
pub fn render_space(p: &Palette, root: &str, rep: &SpaceReport) -> (r: Page)
    requires
        disk_fits(rep.disk),
    ensures
        r@ == space_lines(*p, root@, *rep),
{
    let mut page = Page::new();
    page.push(space_head_line(p, root));
    match &rep.disk {
        Some(d) => {
            page.push(capacity_line(d));
            page.push(used_line(p, d, used_percent_of(d)));
            page.push(free_line(p, d));
        },
        None => page.push(no_disk_line(p)),
    }
    page.push("".to_owned());
    if rep.snapshots.len() == 0 {
        page.push(no_snapshots_line(p));
    } else {
        page.push(snapshots_head_line(p, rep.snapshots.len()));
        page.append(snapshot_page(p, &rep.snapshots));
        if let Some(c) = &rep.reclaim_snapshots {
            page.push(thin_line(c.as_str()));
        }
    }
    page.push("".to_owned());
    page.push(gap_one_line(p));
    page.push(gap_two_line(p));
    page.push(gap_three_line(p));
    page
}

/// The colour of a severity.
pub open spec fn severity_colour(p: Palette, s: Severity) -> Seq<char> {
    match s {
        Severity::Critical => p.red@,
        Severity::Warn => p.yellow@,
        Severity::Info => p.dim@,
    }
}

fn colour_of(p: &Palette, s: Severity) -> (r: &'static str)
    ensures
        r@ == severity_colour(*p, s),
{
    match s {
        Severity::Critical => p.red,
        Severity::Warn => p.yellow,
        Severity::Info => p.dim,
    }
}

/// The tag of a severity.
pub open spec fn severity_tag(s: Severity) -> Seq<char> {
    match s {
        Severity::Critical => "CRIT"@,
        Severity::Warn => "WARN"@,
        Severity::Info => "INFO"@,
    }
}

fn tag_of(s: Severity) -> (r: &'static str)
    ensures
        r@ == severity_tag(s),
{
    match s {
        Severity::Critical => "CRIT",
        Severity::Warn => "WARN",
        Severity::Info => "INFO",
    }
}

/// A folder of app data.
pub open spec fn app_data_text(p: Palette, a: Anomaly) -> Seq<char> {
    "  "@
        + severity_colour(p, a.severity)
        + "["@
        + severity_tag(a.severity)
        + "]"@
        + p.reset@
        + " "@
        + p.bold@
        + text::right_aligned(report::human_text(a.bytes as nat), 9)
        + p.reset@
        + "  "@
        + a.name@
        + "  "@
        + p.dim@
        + "in "@
        + a.zone@
        + p.reset@
}

fn app_data_line(p: &Palette, a: &Anomaly) -> (r: String)
    ensures
        r@ == app_data_text(*p, *a),
{
    let mut r = "  ".to_owned();
    r.append(colour_of(p, a.severity));
    r.append("[");
    r.append(tag_of(a.severity));
    r.append("]");
    r.append(p.reset);
    r.append(" ");
    r.append(p.bold);
    r.append(align_right(human(a.bytes).as_str(), 9).as_str());
    r.append(p.reset);
    r.append("  ");
    r.append(a.name.as_str());
    r.append("  ");
    r.append(p.dim);
    r.append("in ");
    r.append(a.zone.as_str());
    r.append(p.reset);
    r
}

/// Where a folder is.
pub open spec fn app_data_path_text(p: Palette, a: Anomaly) -> Seq<char> {
    "      "@
        + p.dim@
        + a.path@
        + p.reset@
}

fn app_data_path_line(p: &Palette, a: &Anomaly) -> (r: String)
    ensures
        r@ == app_data_path_text(*p, *a),
{
    let mut r = "      ".to_owned();
    r.append(p.dim);
    r.append(a.path.as_str());
    r.append(p.reset);
    r
}

/// A cache.
pub open spec fn cache_text(p: Palette, a: Anomaly) -> Seq<char> {
    "  "@
        + p.green@
        + text::right_aligned(report::human_text(a.bytes as nat), 9)
        + p.reset@
        + "  "@
        + a.name@
        + "  "@
        + p.dim@
        + "in "@
        + a.zone@
        + p.reset@
}

fn cache_line(p: &Palette, a: &Anomaly) -> (r: String)
    ensures
        r@ == cache_text(*p, *a),
{
    let mut r = "  ".to_owned();
    r.append(p.green);
    r.append(align_right(human(a.bytes).as_str(), 9).as_str());
    r.append(p.reset);
    r.append("  ");
    r.append(a.name.as_str());
    r.append("  ");
    r.append(p.dim);
    r.append("in ");
    r.append(a.zone.as_str());
    r.append(p.reset);
    r
}

/// A folder of app data takes two lines, a cache none.
pub open spec fn app_data_block(p: Palette, a: Anomaly) -> Seq<Seq<char>> {
    if a.kind == AnomalyKind::AppData {
        no_lines().push(app_data_text(p, a)).push(app_data_path_text(p, a))
    } else {
        no_lines()
    }
}

fn app_data_lines_of(p: &Palette, a: &Anomaly) -> (r: Page)
    ensures
        r@ == app_data_block(*p, *a),
{
    let mut page = Page::new();
    if a.kind == AnomalyKind::AppData {
        page.push(app_data_line(p, a));
        page.push(app_data_path_line(p, a));
    }
    page
}

/// The folders of app data.
pub open spec fn app_data_blocks(p: Palette, items: Seq<Anomaly>) -> Seq<Seq<char>>
    decreases items.len(),
{
    if items.len() == 0 {
        no_lines()
    } else {
        app_data_blocks(p, items.drop_last()) + app_data_block(p, items.last())
    }
}

fn app_data_page(p: &Palette, items: &Vec<Anomaly>, n: usize) -> (r: Page)
    requires
        n <= items@.len(),
    ensures
        r@ == app_data_blocks(*p, items@.take(n as int)),
{
    let mut page = Page::new();
    let mut i: usize = 0;
    assert(items@.take(0) =~= Seq::<Anomaly>::empty());
    while i < n
        invariant
            i <= n <= items@.len(),
            page@ == app_data_blocks(*p, items@.take(i as int)),
        decreases n - i,
    {
        proof {
            assert(items@.take(i + 1).drop_last() =~= items@.take(i as int));
            assert(items@.take(i + 1).last() == items@[i as int]);
        }
        page.append(app_data_lines_of(p, &items[i]));
        i += 1;
    }
    page
}

/// A cache takes one line, a folder of app data none.
pub open spec fn cache_block(p: Palette, a: Anomaly) -> Seq<Seq<char>> {
    if a.kind == AnomalyKind::Cache { no_lines().push(cache_text(p, a)) } else { no_lines() }
}

fn cache_lines_of(p: &Palette, a: &Anomaly) -> (r: Page)
    ensures
        r@ == cache_block(*p, *a),
{
    let mut page = Page::new();
    if a.kind == AnomalyKind::Cache {
        page.push(cache_line(p, a));
    }
    page
}

/// The caches.
pub open spec fn cache_blocks(p: Palette, items: Seq<Anomaly>) -> Seq<Seq<char>>
    decreases items.len(),
{
    if items.len() == 0 {
        no_lines()
    } else {
        cache_blocks(p, items.drop_last()) + cache_block(p, items.last())
    }
}

fn cache_page(p: &Palette, items: &Vec<Anomaly>, n: usize) -> (r: Page)
    requires
        n <= items@.len(),
    ensures
        r@ == cache_blocks(*p, items@.take(n as int)),
{
    let mut page = Page::new();
    let mut i: usize = 0;
    assert(items@.take(0) =~= Seq::<Anomaly>::empty());
    while i < n
        invariant
            i <= n <= items@.len(),
            page@ == cache_blocks(*p, items@.take(i as int)),
        decreases n - i,
    {
        proof {
            assert(items@.take(i + 1).drop_last() =~= items@.take(i as int));
            assert(items@.take(i + 1).last() == items@[i as int]);
        }
        page.append(cache_lines_of(p, &items[i]));
        i += 1;
    }
    page
}

/// The head of the anomalies.
pub open spec fn anomalies_head_text(p: Palette) -> Seq<char> {
    p.bold@
        + "deepscan anomalies"@
        + p.reset@
        + " "@
        + p.dim@
        + "· biggest same-class folders — app data to review vs caches you can clear"@
        + p.reset@
}

fn anomalies_head_line(p: &Palette) -> (r: String)
    ensures
        r@ == anomalies_head_text(*p),
{
    let mut r = p.bold.to_owned();
    r.append("deepscan anomalies");
    r.append(p.reset);
    r.append(" ");
    r.append(p.dim);
    r.append("· biggest same-class folders — app data to review vs caches you can clear");
    r.append(p.reset);
    r
}

/// No anomalies.
pub open spec fn anomalies_none_text(p: Palette) -> Seq<char> {
    "  "@
        + p.dim@
        + "nothing notably large in the scanned zones"@
        + p.reset@
}

fn anomalies_none_line(p: &Palette) -> (r: String)
    ensures
        r@ == anomalies_none_text(*p),
{
    let mut r = "  ".to_owned();
    r.append(p.dim);
    r.append("nothing notably large in the scanned zones");
    r.append(p.reset);
    r
}

/// The head of the app data.
pub open spec fn app_data_head_text(p: Palette) -> Seq<char> {
    "\n"@
        + p.bold@
        + "App data"@
        + p.reset@
        + " "@
        + p.dim@
        + "— real state; review what's inside before removing"@
        + p.reset@
}

fn app_data_head_line(p: &Palette) -> (r: String)
    ensures
        r@ == app_data_head_text(*p),
{
    let mut r = "\n".to_owned();
    r.append(p.bold);
    r.append("App data");
    r.append(p.reset);
    r.append(" ");
    r.append(p.dim);
    r.append("— real state; review what's inside before removing");
    r.append(p.reset);
    r
}

/// The head of the caches.
pub open spec fn caches_head_text(p: Palette, bytes: u64) -> Seq<char> {
    "\n"@
        + p.bold@
        + "Caches"@
        + p.reset@
        + " "@
        + p.dim@
        + "— safe to clear, regenerate on next use ("@
        + report::human_text(bytes as nat)
        + " total · deepscan reclaim)"@
        + p.reset@
}

fn caches_head_line(p: &Palette, bytes: u64) -> (r: String)
    ensures
        r@ == caches_head_text(*p, bytes),
{
    let mut r = "\n".to_owned();
    r.append(p.bold);
    r.append("Caches");
    r.append(p.reset);
    r.append(" ");
    r.append(p.dim);
    r.append("— safe to clear, regenerate on next use (");
    r.append(human(bytes).as_str());
    r.append(" total · deepscan reclaim)");
    r.append(p.reset);
    r
}

/// The bytes of a cache.
pub open spec fn cache_bytes() -> spec_fn(Anomaly) -> nat {
    |a: Anomaly|
        if a.kind == AnomalyKind::Cache {
            a.bytes as nat
        } else {
            0
        }
}

/// The report on anomalies: app data first, then caches.
pub open spec fn anomalies_report(p: Palette, anomalies: Seq<Anomaly>) -> Seq<Seq<char>> {
    let head = no_lines().push(anomalies_head_text(p));
    if anomalies.len() == 0 {
        head.push(anomalies_none_text(p))
    } else {
        let app_data = app_data_blocks(p, anomalies);
        let caches = cache_blocks(p, anomalies);
        let first = if app_data.len() > 0 {
            head.push(app_data_head_text(p)) + app_data
        } else {
            head
        };
        if caches.len() > 0 {
            first.push(caches_head_text(p, order::sum(anomalies, cache_bytes()) as u64)) + caches
        } else {
            first
        }
    }
}

/// The report on anomalies: app data first, then caches.
pub fn render_anomalies(p: &Palette, anomalies: &Vec<Anomaly>) -> (r: Page)
    requires
        order::sum(anomalies@, cache_bytes()) <= u64::MAX,
    ensures
        r@ == anomalies_report(*p, anomalies@),
{
    let mut page = Page::new();
    page.push(anomalies_head_line(p));
    let n = anomalies.len();
    if n == 0 {
        page.push(anomalies_none_line(p));
        return page;
    }
    let mut total: u64 = 0;
    let mut i: usize = 0;
    assert(anomalies@.take(0) =~= Seq::<Anomaly>::empty());
    while i < n
        invariant
            i <= n,
            n == anomalies@.len(),
            order::sum(anomalies@, cache_bytes()) <= u64::MAX,
            total == order::sum(anomalies@.take(i as int), cache_bytes()),
        decreases n - i,
    {
        proof {
            order::lemma_sum_step(anomalies@, i as int, cache_bytes());
        }
        if anomalies[i].kind == AnomalyKind::Cache {
            total += anomalies[i].bytes;
        }
        i += 1;
    }
    assert(anomalies@.take(n as int) =~= anomalies@);
    let app_data = app_data_page(p, anomalies, n);
    let caches = cache_page(p, anomalies, n);
    if app_data.lines.len() > 0 {
        page.push(app_data_head_line(p));
        page.append(app_data);
    }
    if caches.lines.len() > 0 {
        page.push(caches_head_line(p, total));
        page.append(caches);
    }
    page
}

/// The head of a scan.
pub open spec fn scan_head_text(p: Palette, root: Seq<char>) -> Seq<char> {
    p.bold@
        + "deepscan"@
        + p.reset@
        + " "@
        + p.dim@
        + "· scanning "@
        + root
        + p.reset@
}

fn scan_head_line(p: &Palette, root: &str) -> (r: String)
    ensures
        r@ == scan_head_text(*p, root@),
{
    let mut r = p.bold.to_owned();
    r.append("deepscan");
    r.append(p.reset);
    r.append(" ");
    r.append(p.dim);
    r.append("· scanning ");
    r.append(root);
    r.append(p.reset);
    r
}

/// What is safe and what is to be reviewed.
pub open spec fn both_text(p: Palette, safe: u64, review: u64) -> Seq<char> {
    report::human_text(safe as nat)
        + " safe to reclaim "@
        + p.dim@
        + "·"@
        + p.reset@
        + " "@
        + p.bold@
        + report::human_text(review as nat)
        + " to review"@
        + p.reset@
}

fn both_line(p: &Palette, safe: u64, review: u64) -> (r: String)
    ensures
        r@ == both_text(*p, safe, review),
{
    let mut r = human(safe);
    r.append(" safe to reclaim ");
    r.append(p.dim);
    r.append("·");
    r.append(p.reset);
    r.append(" ");
    r.append(p.bold);
    r.append(human(review).as_str());
    r.append(" to review");
    r.append(p.reset);
    r
}

/// The bytes of a bucket that is safe to clear.
pub open spec fn safe_weight() -> spec_fn(Bucket) -> nat {
    |b: Bucket|
        if b.safe_auto {
            b.bytes as nat
        } else {
            0
        }
}

/// The bytes that are safe to reclaim.
pub fn safe_bytes(buckets: &Vec<Bucket>) -> (r: u64)
    requires
        order::sum(buckets@, safe_weight()) <= u64::MAX,
    ensures
        r == order::sum(buckets@, safe_weight()),
{
    let mut sum: u64 = 0;
    let mut i: usize = 0;
    assert(buckets@.take(0) =~= Seq::<Bucket>::empty());
    while i < buckets.len()
        invariant
            i <= buckets@.len(),
            order::sum(buckets@, safe_weight()) <= u64::MAX,
            sum == order::sum(buckets@.take(i as int), safe_weight()),
        decreases buckets@.len() - i,
    {
        proof {
            order::lemma_sum_step(buckets@, i as int, safe_weight());
        }
        if buckets[i].safe_auto {
            sum += buckets[i].bytes;
        }
        i += 1;
    }
    assert(buckets@.take(buckets@.len() as int) =~= buckets@);
    sum
}

/// What is left of `all` without `part`; nothing where that is more.
pub open spec fn without(all: u64, part: u64) -> u64 {
    if all >= part { (all - part) as u64 } else { 0 }
}

/// What can be reclaimed, in a few words. User files never count as safe.
pub open spec fn summary_text(p: Palette, reclaimable: u64, safe: u64) -> Seq<char> {
    let review = without(reclaimable, safe);
    if reclaimable == 0 {
        "nothing reclaimable in known locations"@
    } else if review == 0 {
        report::human_text(safe as nat) + " safe to reclaim"@
    } else {
        both_text(p, safe, review)
    }
}

fn summary_line(p: &Palette, reclaimable: u64, safe: u64) -> (r: String)
    ensures
        r@ == summary_text(*p, reclaimable, safe),
{
    let review = if reclaimable >= safe {
        reclaimable - safe
    } else {
        0
    };
    if reclaimable == 0 {
        "nothing reclaimable in known locations".to_owned()
    } else if review == 0 {
        let mut r = human(safe);
        r.append(" safe to reclaim");
        r
    } else {
        both_line(p, safe, review)
    }
}

/// One for a critical finding.
pub open spec fn critical_one() -> spec_fn(Finding) -> nat {
    |f: Finding|
        if f.severity == Severity::Critical {
            1
        } else {
            0
        }
}

fn count_critical(fs: &Vec<Finding>) -> (r: usize)
    ensures
        r == order::sum(fs@, critical_one()),
{
    let mut n: usize = 0;
    let mut i: usize = 0;
    assert(fs@.take(0) =~= Seq::<Finding>::empty());
    while i < fs.len()
        invariant
            i <= fs@.len(),
            n <= i,
            n == order::sum(fs@.take(i as int), critical_one()),
        decreases fs@.len() - i,
    {
        proof {
            order::lemma_sum_step(fs@, i as int, critical_one());
        }
        if fs[i].severity == Severity::Critical {
            n += 1;
        }
        i += 1;
    }
    assert(fs@.take(fs@.len() as int) =~= fs@);
    n
}

/// How many findings are critical, where any are.
pub open spec fn critical_note(n: nat) -> Seq<char> {
    if n > 0 { " ("@ + text::decimal(n) + " critical)"@ } else { text::nil() }
}

fn critical_note_of(n: usize) -> (r: String)
    ensures
        r@ == critical_note(n as nat),
{
    if n > 0 {
        let mut r = " (".to_owned();
        r.append(decimal_text(n as u64).as_str());
        r.append(" critical)");
        r
    } else {
        let r = String::new();
        assert(r@ =~= text::nil());
        r
    }
}

/// The summary of a scan.
pub open spec fn scan_summary_text(p: Palette, summary: Seq<char>, leaks: usize, critical: usize) -> Seq<char> {
    p.dim@
        + "summary:"@
        + p.reset@
        + " "@
        + p.bold@
        + summary
        + p.reset@
        + " "@
        + p.dim@
        + "·"@
        + p.reset@
        + " "@
        + text::decimal(leaks as nat)
        + " leak signature"@
        + plural(leaks as nat)
        + critical_note(critical as nat)
}

fn scan_summary_line(p: &Palette, summary: &str, leaks: usize, critical: usize) -> (r: String)
    ensures
        r@ == scan_summary_text(*p, summary@, leaks, critical),
{
    let mut r = p.dim.to_owned();
    r.append("summary:");
    r.append(p.reset);
    r.append(" ");
    r.append(p.bold);
    r.append(summary);
    r.append(p.reset);
    r.append(" ");
    r.append(p.dim);
    r.append("·");
    r.append(p.reset);
    r.append(" ");
    r.append(decimal_text(leaks as u64).as_str());
    r.append(" leak signature");
    r.append(plural_of(leaks));
    r.append(critical_note_of(critical).as_str());
    r
}

/// The volume of a scan.
pub open spec fn disk_text(p: Palette, d: DiskSpace, pct: u64) -> Seq<char> {
    p.dim@
        + "disk:"@
        + p.reset@
        + " "@
        + report::human_text(d.used as nat)
        + " used of "@
        + report::human_text(d.total as nat)
        + " "@
        + p.dim@
        + "· "@
        + report::human_text(d.free as nat)
        + " free ("@
        + text::decimal(pct as nat)
        + "%)"@
        + p.reset@
}

fn disk_line(p: &Palette, d: &DiskSpace, pct: u64) -> (r: String)
    ensures
        r@ == disk_text(*p, *d, pct),
{
    let mut r = p.dim.to_owned();
    r.append("disk:");
    r.append(p.reset);
    r.append(" ");
    r.append(human(d.used).as_str());
    r.append(" used of ");
    r.append(human(d.total).as_str());
    r.append(" ");
    r.append(p.dim);
    r.append("· ");
    r.append(human(d.free).as_str());
    r.append(" free (");
    r.append(decimal_text(pct as u64).as_str());
    r.append("%)");
    r.append(p.reset);
    r
}

/// The head of the tree.
pub open spec fn where_head_text(p: Palette, total: u64) -> Seq<char> {
    "\n"@
        + p.bold@
        + "Where the space is"@
        + p.reset@
        + " "@
        + p.dim@
        + "(total "@
        + report::human_text(total as nat)
        + ")"@
        + p.reset@
}

fn where_head_line(p: &Palette, total: u64) -> (r: String)
    ensures
        r@ == where_head_text(*p, total),
{
    let mut r = "\n".to_owned();
    r.append(p.bold);
    r.append("Where the space is");
    r.append(p.reset);
    r.append(" ");
    r.append(p.dim);
    r.append("(total ");
    r.append(human(total).as_str());
    r.append(")");
    r.append(p.reset);
    r
}

/// A child of the root.
pub open spec fn child_text(p: Palette, c: ChildSize) -> Seq<char> {
    "  "@
        + text::right_aligned(report::human_text(c.bytes as nat), 11)
        + "  "@
        + c.name@
}

fn child_line(p: &Palette, c: &ChildSize) -> (r: String)
    ensures
        r@ == child_text(*p, *c),
{
    let mut r = "  ".to_owned();
    r.append(align_right(human(c.bytes).as_str(), 11).as_str());
    r.append("  ");
    r.append(c.name.as_str());
    r
}

/// The children of the root.
pub open spec fn child_lines(p: Palette, items: Seq<ChildSize>) -> Seq<Seq<char>> {
    Seq::new(items.len(), |i: int| child_text(p, items[i]))
}

fn child_page(p: &Palette, items: &Vec<ChildSize>) -> (r: Page)
    ensures
        r@ == child_lines(*p, items@),
{
    let ghost all = child_lines(*p, items@);
    let mut page = Page::new();
    let mut i: usize = 0;
    assert(page@ =~= all.take(0));
    while i < items.len()
        invariant
            i <= items@.len(),
            all == child_lines(*p, items@),
            page@ == all.take(i as int),
        decreases items@.len() - i,
    {
        let line = child_line(p, &items[i]);
        assert(all.take(i as int).push(line@) =~= all.take(i + 1));
        page.push(line);
        i += 1;
    }
    assert(all.take(all.len() as int) =~= all);
    page
}

/// A tip.
pub open spec fn tip_text(p: Palette) -> Seq<char> {
    "\n"@
        + p.dim@
        + "Tip: add --tree (or --depth N) to see where all your space went — it walks the whole tree, so it's slower."@
        + p.reset@
}

fn tip_line(p: &Palette) -> (r: String)
    ensures
        r@ == tip_text(*p),
{
    let mut r = "\n".to_owned();
    r.append(p.dim);
    r.append("Tip: add --tree (or --depth N) to see where all your space went — it walks the whole tree, so it's slower.");
    r.append(p.reset);
    r
}

/// A directory of the tree.
pub open spec fn node_text(t: TreeNode, pad: Seq<char>) -> Seq<char> {
    "  "@
        + text::right_aligned(report::human_text(t.bytes as nat), 11)
        + "  "@
        + pad
        + t.name@
}

fn node_line(t: &TreeNode, pad: &str) -> (r: String)
    ensures
        r@ == node_text(*t, pad@),
{
    let mut r = "  ".to_owned();
    r.append(align_right(human(t.bytes).as_str(), 11).as_str());
    r.append("  ");
    r.append(pad);
    r.append(t.name.as_str());
    r
}

/// Directories that are not shown.
pub open spec fn more_nodes_text(p: Palette, pad: Seq<char>, hidden: usize) -> Seq<char> {
    "  "@
        + text::right_aligned(""@, 11)
        + "  "@
        + pad
        + p.dim@
        + "… "@
        + text::decimal(hidden as nat)
        + " more"@
        + p.reset@
}

fn more_nodes_line(p: &Palette, pad: &str, hidden: usize) -> (r: String)
    ensures
        r@ == more_nodes_text(*p, pad@, hidden),
{
    let mut r = "  ".to_owned();
    r.append(align_right("", 11).as_str());
    r.append("  ");
    r.append(pad);
    r.append(p.dim);
    r.append("… ");
    r.append(decimal_text(hidden as u64).as_str());
    r.append(" more");
    r.append(p.reset);
    r
}

/// One for a directory that is large enough to be shown.
pub open spec fn shown_one(threshold: u64) -> spec_fn(TreeNode) -> nat {
    |t: TreeNode|
        if t.bytes >= threshold {
            1
        } else {
            0
        }
}

/// The lines of a directory of the tree: its own, then those of its first children that are
/// large enough, indented, then how many more there are.
pub open spec fn tree_lines(p: Palette, t: TreeNode, pad: Seq<char>, threshold: u64) -> Seq<
    Seq<char>,
>
    decreases t,
{
    let deeper = pad + "  "@;
    let below = no_lines().push(node_text(t, pad)) + forest_lines(
        p,
        t.children@,
        deeper,
        threshold,
    );
    let shown = order::sum(t.children@, shown_one(threshold));
    if shown > TOP_PER_LEVEL {
        below.push(more_nodes_text(p, deeper, (shown - TOP_PER_LEVEL) as usize))
    } else {
        below
    }
}

/// The lines of the first directories of a list that are large enough.
pub open spec fn forest_lines(p: Palette, ts: Seq<TreeNode>, pad: Seq<char>, threshold: u64) -> Seq<
    Seq<char>,
>
    decreases ts,
{
    if ts.len() == 0 {
        no_lines()
    } else {
        let rest = forest_lines(p, ts.drop_last(), pad, threshold);
        let t = ts[ts.len() - 1];
        if t.bytes >= threshold && order::sum(ts.drop_last(), shown_one(threshold))
            < TOP_PER_LEVEL {
            rest + tree_lines(p, t, pad, threshold)
        } else {
            rest
        }
    }
}

/// Prints a directory of the tree. Small entries are left out, so that a deep tree stays
/// readable.
pub fn print_tree(p: &Palette, node: &TreeNode, pad: &str, threshold: u64) -> (r: Page)
    ensures
        r@ == tree_lines(*p, *node, pad@, threshold),
    decreases node, 1nat,
{
    let mut deeper = pad.to_owned();
    deeper.append("  ");
    let mut page = Page::new();
    page.push(node_line(node, pad));
    let children = &node.children;
    let mut shown: usize = 0;
    let mut i: usize = 0;
    let ghost head = page@;
    assert(children@.take(0) =~= Seq::<TreeNode>::empty());
    assert(head + no_lines() =~= head);
    while i < children.len()
        invariant
            i <= children@.len(),
            children@ == node.children@,
            deeper@ == pad@ + "  "@,
            shown <= i,
            shown == order::sum(children@.take(i as int), shown_one(threshold)),
            page@ == head + forest_lines(*p, children@.take(i as int), deeper@, threshold),
        decreases children@.len() - i,
    {
        let ghost now = children@.take(i + 1);
        proof {
            assert(now.drop_last() =~= children@.take(i as int));
            assert(now[now.len() - 1] == children@[i as int]);
            order::lemma_sum_step(children@, i as int, shown_one(threshold));
            assert(decreases_to!(*node => node.children));
            assert(decreases_to!(node.children => children@));
            assert(decreases_to!(children@ => children@[i as int]));
        }
        if children[i].bytes >= threshold {
            if shown < TOP_PER_LEVEL {
                let ghost before = forest_lines(
                    *p,
                    children@.take(i as int),
                    deeper@,
                    threshold,
                );
                let below = print_tree(p, &children[i], deeper.as_str(), threshold);
                let ghost tail = below@;
                page.append(below);
                assert((head + before) + tail =~= head + (before + tail));
            }
            shown += 1;
        }
        i += 1;
    }
    assert(children@.take(children@.len() as int) =~= children@);
    if shown > TOP_PER_LEVEL {
        page.push(more_nodes_line(p, deeper.as_str(), shown - TOP_PER_LEVEL));
    }
    page
}

fn print_forest(p: &Palette, trees: &Vec<TreeNode>, pad: &str, threshold: u64) -> (r: Page)
    ensures
        r@ == forest_lines(*p, trees@, pad@, threshold),
{
    let mut page = Page::new();
    let mut shown: usize = 0;
    let mut i: usize = 0;
    assert(trees@.take(0) =~= Seq::<TreeNode>::empty());
    while i < trees.len()
        invariant
            i <= trees@.len(),
            shown <= i,
            shown == order::sum(trees@.take(i as int), shown_one(threshold)),
            page@ == forest_lines(*p, trees@.take(i as int), pad@, threshold),
        decreases trees@.len() - i,
    {
        let ghost now = trees@.take(i + 1);
        proof {
            assert(now.drop_last() =~= trees@.take(i as int));
            assert(now[now.len() - 1] == trees@[i as int]);
            order::lemma_sum_step(trees@, i as int, shown_one(threshold));
        }
        if trees[i].bytes >= threshold {
            if shown < TOP_PER_LEVEL {
                page.append(print_tree(p, &trees[i], pad, threshold));
            }
            shown += 1;
        }
        i += 1;
    }
    assert(trees@.take(trees@.len() as int) =~= trees@);
    page
}

/// The size below which a directory of the tree is not shown: a hundredth of the total, and at
/// least 50 MB.
pub open spec fn tree_threshold(total: u64) -> u64 {
    if total / 100 >= 0x320_0000 { total / 100 } else { 0x320_0000 }
}

/// The head of the buckets.
pub open spec fn buckets_head_text(p: Palette, safe: u64, review: u64, n: usize) -> Seq<char> {
    "\n"@
        + p.bold@
        + "Reclaimable buckets"@
        + p.reset@
        + " "@
        + p.dim@
        + "("@
        + report::human_text(safe as nat)
        + " safe · "@
        + report::human_text(review as nat)
        + " review across "@
        + text::decimal(n as nat)
        + " locations)"@
        + p.reset@
}

fn buckets_head_line(p: &Palette, safe: u64, review: u64, n: usize) -> (r: String)
    ensures
        r@ == buckets_head_text(*p, safe, review, n),
{
    let mut r = "\n".to_owned();
    r.append(p.bold);
    r.append("Reclaimable buckets");
    r.append(p.reset);
    r.append(" ");
    r.append(p.dim);
    r.append("(");
    r.append(human(safe).as_str());
    r.append(" safe · ");
    r.append(human(review).as_str());
    r.append(" review across ");
    r.append(decimal_text(n as u64).as_str());
    r.append(" locations)");
    r.append(p.reset);
    r
}

/// The tag and the colour of a bucket.
pub open spec fn bucket_style(p: Palette, safe: bool) -> (Seq<char>, Seq<char>) {
    if safe { ("[safe]"@, p.green@) } else { ("[review]"@, p.yellow@) }
}

fn bucket_tag(safe: bool) -> (r: &'static str)
    ensures
        forall|p: Palette| r@ == (#[trigger] bucket_style(p, safe)).0,
{
    if safe {
        "[safe]"
    } else {
        "[review]"
    }
}

fn bucket_colour(p: &Palette, safe: bool) -> (r: &'static str)
    ensures
        r@ == bucket_style(*p, safe).1,
{
    if safe {
        p.green
    } else {
        p.yellow
    }
}

/// A bucket.
pub open spec fn bucket_text(p: Palette, b: Bucket) -> Seq<char> {
    "  "@
        + text::right_aligned(report::human_text(b.bytes as nat), 11)
        + "  "@
        + bucket_style(p, b.safe_auto).1
        + text::left_aligned(bucket_style(p, b.safe_auto).0, 8)
        + p.reset@
        + " "@
        + p.cyan@
        + b.name@
        + p.reset@
        + " "@
        + p.dim@
        + "— "@
        + b.note@
        + p.reset@
}

fn bucket_line(p: &Palette, b: &Bucket) -> (r: String)
    ensures
        r@ == bucket_text(*p, *b),
{
    let mut r = "  ".to_owned();
    r.append(align_right(human(b.bytes).as_str(), 11).as_str());
    r.append("  ");
    r.append(bucket_colour(p, b.safe_auto));
    r.append(align_left(bucket_tag(b.safe_auto), 8).as_str());
    r.append(p.reset);
    r.append(" ");
    r.append(p.cyan);
    r.append(b.name.as_str());
    r.append(p.reset);
    r.append(" ");
    r.append(p.dim);
    r.append("— ");
    r.append(b.note.as_str());
    r.append(p.reset);
    r
}

/// The buckets.
pub open spec fn bucket_lines(p: Palette, items: Seq<Bucket>) -> Seq<Seq<char>> {
    Seq::new(items.len(), |i: int| bucket_text(p, items[i]))
}

fn bucket_page(p: &Palette, items: &Vec<Bucket>) -> (r: Page)
    ensures
        r@ == bucket_lines(*p, items@),
{
    let ghost all = bucket_lines(*p, items@);
    let mut page = Page::new();
    let mut i: usize = 0;
    assert(page@ =~= all.take(0));
    while i < items.len()
        invariant
            i <= items@.len(),
            all == bucket_lines(*p, items@),
            page@ == all.take(i as int),
        decreases items@.len() - i,
    {
        let line = bucket_line(p, &items[i]);
        assert(all.take(i as int).push(line@) =~= all.take(i + 1));
        page.push(line);
        i += 1;
    }
    assert(all.take(all.len() as int) =~= all);
    page
}

/// The head of the leaks.
pub open spec fn leaks_head_text(p: Palette) -> Seq<char> {
    "\n"@
        + p.bold@
        + "Leak signatures"@
        + p.reset@
}

fn leaks_head_line(p: &Palette) -> (r: String)
    ensures
        r@ == leaks_head_text(*p),
{
    let mut r = "\n".to_owned();
    r.append(p.bold);
    r.append("Leak signatures");
    r.append(p.reset);
    r
}

/// No leaks.
pub open spec fn leaks_none_text(p: Palette) -> Seq<char> {
    "  "@
        + p.dim@
        + "no anomalies above baseline — clean"@
        + p.reset@
}

fn leaks_none_line(p: &Palette) -> (r: String)
    ensures
        r@ == leaks_none_text(*p),
{
    let mut r = "  ".to_owned();
    r.append(p.dim);
    r.append("no anomalies above baseline — clean");
    r.append(p.reset);
    r
}

/// A leak.
pub open spec fn leak_text(p: Palette, f: Finding) -> Seq<char> {
    "  "@
        + severity_colour(p, f.severity)
        + "⚠ ["@
        + severity_tag(f.severity)
        + "] "@
        + f.name@
        + p.reset@
        + " "@
        + p.bold@
        + report::human_text(f.bytes as nat)
        + p.reset@
        + " "@
        + p.dim@
        + "(baseline "@
        + report::human_text(f.baseline_bytes as nat)
        + ")"@
        + p.reset@
}

fn leak_line(p: &Palette, f: &Finding) -> (r: String)
    ensures
        r@ == leak_text(*p, *f),
{
    let mut r = "  ".to_owned();
    r.append(colour_of(p, f.severity));
    r.append("⚠ [");
    r.append(tag_of(f.severity));
    r.append("] ");
    r.append(f.name.as_str());
    r.append(p.reset);
    r.append(" ");
    r.append(p.bold);
    r.append(human(f.bytes).as_str());
    r.append(p.reset);
    r.append(" ");
    r.append(p.dim);
    r.append("(baseline ");
    r.append(human(f.baseline_bytes).as_str());
    r.append(")");
    r.append(p.reset);
    r
}

/// Who owns a leak.
pub open spec fn owner_text(s: Seq<char>) -> Seq<char> {
    "      owner:    "@
        + s
}

fn owner_line(s: &str) -> (r: String)
    ensures
        r@ == owner_text(s@),
{
    let mut r = "      owner:    ".to_owned();
    r.append(s);
    r
}

/// Where a leak is.
pub open spec fn leak_path_text(s: Seq<char>) -> Seq<char> {
    "      path:     "@
        + s
}

fn leak_path_line(s: &str) -> (r: String)
    ensures
        r@ == leak_path_text(s@),
{
    let mut r = "      path:     ".to_owned();
    r.append(s);
    r
}

/// Why a leak is there.
pub open spec fn cause_text(s: Seq<char>) -> Seq<char> {
    "      cause:    "@
        + s
}

fn cause_line(s: &str) -> (r: String)
    ensures
        r@ == cause_text(s@),
{
    let mut r = "      cause:    ".to_owned();
    r.append(s);
    r
}

/// How to prevent a leak.
pub open spec fn prevent_text(s: Seq<char>) -> Seq<char> {
    "      prevent:  "@
        + s
}

fn prevent_line(s: &str) -> (r: String)
    ensures
        r@ == prevent_text(s@),
{
    let mut r = "      prevent:  ".to_owned();
    r.append(s);
    r
}

/// How to reclaim a leak.
pub open spec fn remedy_text(s: Seq<char>) -> Seq<char> {
    "      reclaim:  "@
        + s
}

fn remedy_line(s: &str) -> (r: String)
    ensures
        r@ == remedy_text(s@),
{
    let mut r = "      reclaim:  ".to_owned();
    r.append(s);
    r
}

/// How many files match.
pub open spec fn matched_text(n: u64) -> Seq<char> {
    "      matches:  "@
        + text::decimal(n as nat)
        + " files"@
}

fn matched_line(n: u64) -> (r: String)
    ensures
        r@ == matched_text(n),
{
    let mut r = "      matches:  ".to_owned();
    r.append(decimal_text(n as u64).as_str());
    r.append(" files");
    r
}

/// The lines of a leak.
pub open spec fn leak_block(p: Palette, f: Finding) -> Seq<Seq<char>> {
    let a = no_lines().push(leak_text(p, f));
    let b = match f.owner {
        Some(s) => a.push(owner_text(s@)),
        None => a,
    };
    let c = b.push(leak_path_text(f.path@));
    let d = match f.file_matches {
        Some(n) => c.push(matched_text(n)),
        None => c,
    };
    let e = match f.root_cause {
        Some(s) => d.push(cause_text(s@)),
        None => d,
    };
    let g = match f.prevention {
        Some(s) => e.push(prevent_text(s@)),
        None => e,
    };
    g.push(remedy_text(f.safe_delete@))
}

fn leak_lines_of(p: &Palette, f: &Finding) -> (r: Page)
    ensures
        r@ == leak_block(*p, *f),
{
    let mut page = Page::new();
    page.push(leak_line(p, f));
    if let Some(s) = &f.owner {
        page.push(owner_line(s.as_str()));
    }
    page.push(leak_path_line(f.path.as_str()));
    if let Some(n) = f.file_matches {
        page.push(matched_line(n));
    }
    if let Some(s) = &f.root_cause {
        page.push(cause_line(s.as_str()));
    }
    if let Some(s) = &f.prevention {
        page.push(prevent_line(s.as_str()));
    }
    page.push(remedy_line(f.safe_delete.as_str()));
    page
}

/// The leaks.
pub open spec fn leak_blocks(p: Palette, items: Seq<Finding>) -> Seq<Seq<char>>
    decreases items.len(),
{
    if items.len() == 0 {
        no_lines()
    } else {
        leak_blocks(p, items.drop_last()) + leak_block(p, items.last())
    }
}

fn leak_page(p: &Palette, items: &Vec<Finding>, n: usize) -> (r: Page)
    requires
        n <= items@.len(),
    ensures
        r@ == leak_blocks(*p, items@.take(n as int)),
{
    let mut page = Page::new();
    let mut i: usize = 0;
    assert(items@.take(0) =~= Seq::<Finding>::empty());
    while i < n
        invariant
            i <= n <= items@.len(),
            page@ == leak_blocks(*p, items@.take(i as int)),
        decreases n - i,
    {
        proof {
            assert(items@.take(i + 1).drop_last() =~= items@.take(i as int));
            assert(items@.take(i + 1).last() == items@[i as int]);
        }
        page.append(leak_lines_of(p, &items[i]));
        i += 1;
    }
    page
}

/// The top of a scan report: the root, the summary and the volume.
pub open spec fn scan_top(p: Palette, rep: ScanReport) -> Seq<Seq<char>> {
    let safe = order::sum(rep.buckets@, safe_weight()) as u64;
    let a = no_lines().push(scan_head_text(p, rep.root@)).push(
        scan_summary_text(
            p,
            summary_text(p, rep.reclaimable_bytes, safe),
            rep.findings@.len() as usize,
            order::sum(rep.findings@, critical_one()) as usize,
        ),
    );
    match rep.disk {
        Some(d) => a.push(disk_text(p, d, used_percent(d))),
        None => a,
    }
}

/// Where the space is: the tree, else the children, else a tip.
pub open spec fn scan_where(p: Palette, rep: ScanReport) -> Seq<Seq<char>> {
    match rep.tree {
        Some(t) => no_lines().push(where_head_text(p, rep.total_bytes)) + forest_lines(
            p,
            t.children@,
            "  "@,
            tree_threshold(rep.total_bytes),
        ),
        None => if rep.children@.len() > 0 {
            no_lines().push(where_head_text(p, rep.total_bytes)) + child_lines(p, rep.children@)
        } else {
            no_lines().push(tip_text(p))
        },
    }
}

/// The reclaimable buckets, where there are any.
pub open spec fn scan_buckets(p: Palette, rep: ScanReport) -> Seq<Seq<char>> {
    let safe = order::sum(rep.buckets@, safe_weight()) as u64;
    if rep.buckets@.len() == 0 {
        no_lines()
    } else {
        no_lines().push(
            buckets_head_text(
                p,
                safe,
                without(rep.reclaimable_bytes, safe),
                rep.buckets@.len() as usize,
            ),
        ) + bucket_lines(p, rep.buckets@)
    }
}

/// The leaks.
pub open spec fn scan_leaks(p: Palette, rep: ScanReport) -> Seq<Seq<char>> {
    let head = no_lines().push(leaks_head_text(p));
    if rep.findings@.len() == 0 {
        head.push(leaks_none_text(p))
    } else {
        head + leak_blocks(p, rep.findings@)
    }
}

/// The report on a scan.
pub open spec fn scan_report(p: Palette, rep: ScanReport) -> Seq<Seq<char>> {
    scan_top(p, rep) + scan_where(p, rep) + scan_buckets(p, rep) + scan_leaks(p, rep)
}

/// Whether the sums of a report can be counted.
pub open spec fn report_fits(rep: ScanReport) -> bool {
    disk_fits(rep.disk) && order::sum(rep.buckets@, safe_weight()) <= u64::MAX
}

fn render_top(p: &Palette, rep: &ScanReport, safe: u64) -> (r: Page)
    requires
        report_fits(*rep),
        safe == order::sum(rep.buckets@, safe_weight()),
    ensures
        r@ == scan_top(*p, *rep),
{
    let mut page = Page::new();
    page.push(scan_head_line(p, rep.root.as_str()));
    let summary = summary_line(p, rep.reclaimable_bytes, safe);
    let critical = count_critical(&rep.findings);
    page.push(scan_summary_line(p, summary.as_str(), rep.findings.len(), critical));
    if let Some(d) = &rep.disk {
        page.push(disk_line(p, d, used_percent_of(d)));
    }
    page
}

fn render_where(p: &Palette, rep: &ScanReport) -> (r: Page)
    ensures
        r@ == scan_where(*p, *rep),
{
    let mut page = Page::new();
    match &rep.tree {
        Some(t) => {
            page.push(where_head_line(p, rep.total_bytes));
            let part = rep.total_bytes / 100;
            let threshold: u64 = if part >= 0x320_0000 {
                part
            } else {
                0x320_0000
            };
            page.append(print_forest(p, &t.children, "  ", threshold));
        },
        None => {
            if rep.children.len() > 0 {
                page.push(where_head_line(p, rep.total_bytes));
                page.append(child_page(p, &rep.children));
            } else {
                page.push(tip_line(p));
            }
        },
    }
    page
}

fn render_buckets(p: &Palette, rep: &ScanReport, safe: u64) -> (r: Page)
    requires
        safe == order::sum(rep.buckets@, safe_weight()),
    ensures
        r@ == scan_buckets(*p, *rep),
{
    let mut page = Page::new();
    if rep.buckets.len() > 0 {
        let review = if rep.reclaimable_bytes >= safe {
            rep.reclaimable_bytes - safe
        } else {
            0
        };
        page.push(buckets_head_line(p, safe, review, rep.buckets.len()));
        page.append(bucket_page(p, &rep.buckets));
    }
    page
}

fn render_leaks(p: &Palette, rep: &ScanReport) -> (r: Page)
    ensures
        r@ == scan_leaks(*p, *rep),
{
    let mut page = Page::new();
    page.push(leaks_head_line(p));
    let n = rep.findings.len();
    if n == 0 {
        page.push(leaks_none_line(p));
    } else {
        assert(rep.findings@.take(n as int) =~= rep.findings@);
        page.append(leak_page(p, &rep.findings, n));
    }
    page
}

/// The report on a scan: a summary that tells what is safe from what is to be reviewed, where
/// the space is, the reclaimable buckets, and the leaks.
pub fn render_scan(p: &Palette, rep: &ScanReport) -> (r: Page)
    requires
        report_fits(*rep),
    ensures
        r@ == scan_report(*p, *rep),
{
    let safe = safe_bytes(&rep.buckets);
    let mut page = render_top(p, rep, safe);
    page.append(render_where(p, rep));
    page.append(render_buckets(p, rep, safe));
    page.append(render_leaks(p, rep));
    page
}

/// The head of a plan.
pub open spec fn plan_head_text(p: Palette) -> Seq<char> {
    p.bold@
        + "deepscan clean"@
        + p.reset@
        + " "@
        + p.dim@
        + "· dry run (nothing deleted)"@
        + p.reset@
}

fn plan_head_line(p: &Palette) -> (r: String)
    ensures
        r@ == plan_head_text(*p),
{
    let mut r = p.bold.to_owned();
    r.append("deepscan clean");
    r.append(p.reset);
    r.append(" ");
    r.append(p.dim);
    r.append("· dry run (nothing deleted)");
    r.append(p.reset);
    r
}

/// Nothing to reclaim.
pub open spec fn plan_none_text(p: Palette) -> Seq<char> {
    "\n"@
        + p.dim@
        + "Nothing safe to reclaim automatically."@
        + p.reset@
}

fn plan_none_line(p: &Palette) -> (r: String)
    ensures
        r@ == plan_none_text(*p),
{
    let mut r = "\n".to_owned();
    r.append(p.dim);
    r.append("Nothing safe to reclaim automatically.");
    r.append(p.reset);
    r
}

/// The head of the automatic targets.
pub open spec fn auto_head_text(p: Palette, bytes: u64, n: usize) -> Seq<char> {
    "\n"@
        + p.bold@
        + "Safe to reclaim"@
        + p.reset@
        + " "@
        + p.dim@
        + "("@
        + report::human_text(bytes as nat)
        + " across "@
        + text::decimal(n as nat)
        + " targets)"@
        + p.reset@
}

fn auto_head_line(p: &Palette, bytes: u64, n: usize) -> (r: String)
    ensures
        r@ == auto_head_text(*p, bytes, n),
{
    let mut r = "\n".to_owned();
    r.append(p.bold);
    r.append("Safe to reclaim");
    r.append(p.reset);
    r.append(" ");
    r.append(p.dim);
    r.append("(");
    r.append(human(bytes).as_str());
    r.append(" across ");
    r.append(decimal_text(n as u64).as_str());
    r.append(" targets)");
    r.append(p.reset);
    r
}

/// An automatic target.
pub open spec fn auto_text(p: Palette, t: ReclaimTarget) -> Seq<char> {
    "  "@
        + p.green@
        + text::right_aligned(report::human_text(t.bytes as nat), 11)
        + p.reset@
        + "  "@
        + t.name@
        + "  "@
        + p.dim@
        + "— "@
        + t.note@
        + p.reset@
}

fn auto_line(p: &Palette, t: &ReclaimTarget) -> (r: String)
    ensures
        r@ == auto_text(*p, *t),
{
    let mut r = "  ".to_owned();
    r.append(p.green);
    r.append(align_right(human(t.bytes).as_str(), 11).as_str());
    r.append(p.reset);
    r.append("  ");
    r.append(t.name.as_str());
    r.append("  ");
    r.append(p.dim);
    r.append("— ");
    r.append(t.note.as_str());
    r.append(p.reset);
    r
}

/// The automatic targets.
pub open spec fn auto_lines(p: Palette, items: Seq<ReclaimTarget>) -> Seq<Seq<char>> {
    Seq::new(items.len(), |i: int| auto_text(p, items[i]))
}

fn auto_page(p: &Palette, items: &Vec<ReclaimTarget>) -> (r: Page)
    ensures
        r@ == auto_lines(*p, items@),
{
    let ghost all = auto_lines(*p, items@);
    let mut page = Page::new();
    let mut i: usize = 0;
    assert(page@ =~= all.take(0));
    while i < items.len()
        invariant
            i <= items@.len(),
            all == auto_lines(*p, items@),
            page@ == all.take(i as int),
        decreases items@.len() - i,
    {
        let line = auto_line(p, &items[i]);
        assert(all.take(i as int).push(line@) =~= all.take(i + 1));
        page.push(line);
        i += 1;
    }
    assert(all.take(all.len() as int) =~= all);
    page
}

/// The head of the manual targets.
pub open spec fn manual_head_text(p: Palette) -> Seq<char> {
    "\n"@
        + p.bold@
        + "Manual"@
        + p.reset@
        + " "@
        + p.dim@
        + "— review and handle yourself"@
        + p.reset@
}

fn manual_head_line(p: &Palette) -> (r: String)
    ensures
        r@ == manual_head_text(*p),
{
    let mut r = "\n".to_owned();
    r.append(p.bold);
    r.append("Manual");
    r.append(p.reset);
    r.append(" ");
    r.append(p.dim);
    r.append("— review and handle yourself");
    r.append(p.reset);
    r
}

/// A manual target.
pub open spec fn manual_text(p: Palette, t: ReclaimTarget) -> Seq<char> {
    "  "@
        + text::right_aligned(report::human_text(t.bytes as nat), 11)
        + "  "@
        + t.name@
        + "  "@
        + p.dim@
        + "— "@
        + t.note@
        + p.reset@
}

fn manual_line(p: &Palette, t: &ReclaimTarget) -> (r: String)
    ensures
        r@ == manual_text(*p, *t),
{
    let mut r = "  ".to_owned();
    r.append(align_right(human(t.bytes).as_str(), 11).as_str());
    r.append("  ");
    r.append(t.name.as_str());
    r.append("  ");
    r.append(p.dim);
    r.append("— ");
    r.append(t.note.as_str());
    r.append(p.reset);
    r
}

/// The manual targets.
pub open spec fn manual_lines(p: Palette, items: Seq<ReclaimTarget>) -> Seq<Seq<char>> {
    Seq::new(items.len(), |i: int| manual_text(p, items[i]))
}

fn manual_page(p: &Palette, items: &Vec<ReclaimTarget>) -> (r: Page)
    ensures
        r@ == manual_lines(*p, items@),
{
    let ghost all = manual_lines(*p, items@);
    let mut page = Page::new();
    let mut i: usize = 0;
    assert(page@ =~= all.take(0));
    while i < items.len()
        invariant
            i <= items@.len(),
            all == manual_lines(*p, items@),
            page@ == all.take(i as int),
        decreases items@.len() - i,
    {
        let line = manual_line(p, &items[i]);
        assert(all.take(i as int).push(line@) =~= all.take(i + 1));
        page.push(line);
        i += 1;
    }
    assert(all.take(all.len() as int) =~= all);
    page
}

/// How to go on.
pub open spec fn plan_hint_text(p: Palette, bytes: u64) -> Seq<char> {
    "\n"@
        + p.dim@
        + "Run"@
        + p.reset@
        + " deepscan reclaim --apply "@
        + p.dim@
        + "to free the "@
        + report::human_text(bytes as nat)
        + " of safe targets."@
        + p.reset@
}

fn plan_hint_line(p: &Palette, bytes: u64) -> (r: String)
    ensures
        r@ == plan_hint_text(*p, bytes),
{
    let mut r = "\n".to_owned();
    r.append(p.dim);
    r.append("Run");
    r.append(p.reset);
    r.append(" deepscan reclaim --apply ");
    r.append(p.dim);
    r.append("to free the ");
    r.append(human(bytes).as_str());
    r.append(" of safe targets.");
    r.append(p.reset);
    r
}

/// The report on a plan.
pub open spec fn plan_report(p: Palette, plan: ReclaimPlan, with_hint: bool) -> Seq<Seq<char>> {
    let head = no_lines().push(plan_head_text(p));
    let auto = if plan.auto_targets@.len() == 0 {
        head.push(plan_none_text(p))
    } else {
        head.push(auto_head_text(p, plan.auto_bytes, plan.auto_targets@.len() as usize))
            + auto_lines(p, plan.auto_targets@)
    };
    let manual = if plan.manual_targets@.len() == 0 {
        auto
    } else {
        auto.push(manual_head_text(p)) + manual_lines(p, plan.manual_targets@)
    };
    if with_hint && plan.auto_targets@.len() > 0 {
        manual.push(plan_hint_text(p, plan.auto_bytes))
    } else {
        manual
    }
}

/// The report on a plan.
pub fn render_plan(p: &Palette, plan: &ReclaimPlan, with_hint: bool) -> (r: Page)
    ensures
        r@ == plan_report(*p, *plan, with_hint),
{
    let mut page = Page::new();
    page.push(plan_head_line(p));
    if plan.auto_targets.len() == 0 {
        page.push(plan_none_line(p));
    } else {
        page.push(auto_head_line(p, plan.auto_bytes, plan.auto_targets.len()));
        page.append(auto_page(p, &plan.auto_targets));
    }
    if plan.manual_targets.len() > 0 {
        page.push(manual_head_line(p));
        page.append(manual_page(p, &plan.manual_targets));
    }
    if with_hint && plan.auto_targets.len() > 0 {
        page.push(plan_hint_line(p, plan.auto_bytes));
    }
    page
}

/// A target that was freed.
pub open spec fn freed_text(p: Palette, o: ReclaimOutcome) -> Seq<char> {
    "  "@
        + p.green@
        + "freed"@
        + p.reset@
        + "  "@
        + text::right_aligned(report::human_text(o.bytes as nat), 11)
        + "  "@
        + o.name@
}

fn freed_line(p: &Palette, o: &ReclaimOutcome) -> (r: String)
    ensures
        r@ == freed_text(*p, *o),
{
    let mut r = "  ".to_owned();
    r.append(p.green);
    r.append("freed");
    r.append(p.reset);
    r.append("  ");
    r.append(align_right(human(o.bytes).as_str(), 11).as_str());
    r.append("  ");
    r.append(o.name.as_str());
    r
}

/// A target that was not freed.
pub open spec fn skipped_text(p: Palette, o: ReclaimOutcome) -> Seq<char> {
    "  "@
        + p.red@
        + "skip"@
        + p.reset@
        + "   "@
        + text::right_aligned(report::human_text(o.bytes as nat), 11)
        + "  "@
        + o.name@
        + " "@
        + p.dim@
        + "("@
        + reason(o.error)
        + ")"@
        + p.reset@
}

fn skipped_line(p: &Palette, o: &ReclaimOutcome) -> (r: String)
    ensures
        r@ == skipped_text(*p, *o),
{
    let mut r = "  ".to_owned();
    r.append(p.red);
    r.append("skip");
    r.append(p.reset);
    r.append("   ");
    r.append(align_right(human(o.bytes).as_str(), 11).as_str());
    r.append("  ");
    r.append(o.name.as_str());
    r.append(" ");
    r.append(p.dim);
    r.append("(");
    r.append(reason_of(&o.error).as_str());
    r.append(")");
    r.append(p.reset);
    r
}

/// What became of a target.
pub open spec fn reclaimed_text(p: Palette, o: ReclaimOutcome) -> Seq<char> {
    if o.ok { freed_text(p, o) } else { skipped_text(p, o) }
}

fn reclaimed_line(p: &Palette, o: &ReclaimOutcome) -> (r: String)
    ensures
        r@ == reclaimed_text(*p, *o),
{
    if o.ok {
        freed_line(p, o)
    } else {
        skipped_line(p, o)
    }
}

/// What became of the targets.
pub open spec fn reclaimed_lines(p: Palette, items: Seq<ReclaimOutcome>) -> Seq<Seq<char>> {
    Seq::new(items.len(), |i: int| reclaimed_text(p, items[i]))
}

fn reclaimed_page(p: &Palette, items: &Vec<ReclaimOutcome>) -> (r: Page)
    ensures
        r@ == reclaimed_lines(*p, items@),
{
    let ghost all = reclaimed_lines(*p, items@);
    let mut page = Page::new();
    let mut i: usize = 0;
    assert(page@ =~= all.take(0));
    while i < items.len()
        invariant
            i <= items@.len(),
            all == reclaimed_lines(*p, items@),
            page@ == all.take(i as int),
        decreases items@.len() - i,
    {
        let line = reclaimed_line(p, &items[i]);
        assert(all.take(i as int).push(line@) =~= all.take(i + 1));
        page.push(line);
        i += 1;
    }
    assert(all.take(all.len() as int) =~= all);
    page
}

/// The head of a reclaim.
pub open spec fn applying_text(p: Palette) -> Seq<char> {
    "\n"@
        + p.bold@
        + "deepscan clean"@
        + p.reset@
        + " "@
        + p.dim@
        + "· applying"@
        + p.reset@
}

fn applying_line(p: &Palette) -> (r: String)
    ensures
        r@ == applying_text(*p),
{
    let mut r = "\n".to_owned();
    r.append(p.bold);
    r.append("deepscan clean");
    r.append(p.reset);
    r.append(" ");
    r.append(p.dim);
    r.append("· applying");
    r.append(p.reset);
    r
}

/// How much was reclaimed.
pub open spec fn reclaimed_total_text(p: Palette, bytes: u64) -> Seq<char> {
    "\n"@
        + p.bold@
        + "Reclaimed "@
        + report::human_text(bytes as nat)
        + p.reset@
}

fn reclaimed_total_line(p: &Palette, bytes: u64) -> (r: String)
    ensures
        r@ == reclaimed_total_text(*p, bytes),
{
    let mut r = "\n".to_owned();
    r.append(p.bold);
    r.append("Reclaimed ");
    r.append(human(bytes).as_str());
    r.append(p.reset);
    r
}

/// What became of a reclaim: a line for each target, then what was freed in all.
pub open spec fn reclaimed_report(p: Palette, result: ReclaimResult) -> Seq<Seq<char>> {
    (no_lines().push(applying_text(p)) + reclaimed_lines(p, result.deleted@)).push(
        reclaimed_total_text(p, result.freed_bytes),
    )
}

/// What became of a reclaim.
pub fn render_reclaimed(p: &Palette, result: &ReclaimResult) -> (r: Page)
    ensures
        r@ == reclaimed_report(*p, *result),
{
    let mut page = Page::new();
    page.push(applying_line(p));
    page.append(reclaimed_page(p, &result.deleted));
    page.push(reclaimed_total_line(p, result.freed_bytes));
    page
}

/// There is nothing to reclaim.
pub open spec fn nothing_safe_text(p: Palette) -> Seq<char> {
    p.dim@ + "Nothing safe to reclaim."@ + p.reset@
}

/// There is nothing to reclaim.
pub fn nothing_safe(p: &Palette) -> (r: String)
    ensures
        r@ == nothing_safe_text(*p),
{
    let mut r = p.dim.to_owned();
    r.append("Nothing safe to reclaim.");
    r.append(p.reset);
    r
}

/// The question before a reclaim.
pub open spec fn reclaim_question_text(bytes: u64) -> Seq<char> {
    "\nDelete "@ + report::human_text(bytes as nat) + " of regenerable caches? [y/N] "@
}

/// The question before a reclaim.
pub fn reclaim_question(bytes: u64) -> (r: String)
    ensures
        r@ == reclaim_question_text(bytes),
{
    let mut r = "\nDelete ".to_owned();
    r.append(human(bytes).as_str());
    r.append(" of regenerable caches? [y/N] ");
    r
}

/// The question before an uninstall.
pub open spec fn uninstall_question_text(plan: UninstallPlan) -> Seq<char> {
    "\nMove "@ + plan.app_name@ + " ("@ + report::human_text(plan.total_bytes as nat)
        + ") to the Trash? [y/N] "@
}

/// The question before an uninstall.
pub fn uninstall_question(plan: &UninstallPlan) -> (r: String)
    ensures
        r@ == uninstall_question_text(*plan),
{
    let mut r = "\nMove ".to_owned();
    r.append(plan.app_name.as_str());
    r.append(" (");
    r.append(human(plan.total_bytes).as_str());
    r.append(") to the Trash? [y/N] ");
    r
}

/// A path that could not be trashed.
pub open spec fn failure_text(f: TrashFailure) -> Seq<char> {
    "skip  "@ + f.path@ + "  ("@ + f.error@ + ")"@
}

/// The report on a round of trashing: what was freed, where anything was, and for the error
/// stream a line for every path that could not be trashed, so that a failure is never silent.
pub fn report_trash(outcome: &TrashOutcome) -> (r: (Page, Page))
    ensures
        r.0@ == (if outcome.freed_bytes > 0 {
            no_lines().push(
                "Moved "@ + report::human_text(outcome.freed_bytes as nat) + " to the Trash."@,
            )
        } else {
            no_lines()
        }),
        r.1@ == Seq::new(outcome.failures@.len(), |i: int| failure_text(outcome.failures@[i])),
{
    let mut said = Page::new();
    if outcome.freed_bytes > 0 {
        let mut line = "Moved ".to_owned();
        line.append(human(outcome.freed_bytes).as_str());
        line.append(" to the Trash.");
        said.push(line);
    }
    let ghost all = Seq::new(
        outcome.failures@.len(),
        |i: int| failure_text(outcome.failures@[i]),
    );
    let mut failed = Page::new();
    let mut i: usize = 0;
    assert(failed@ =~= all.take(0));
    while i < outcome.failures.len()
        invariant
            i <= outcome.failures@.len(),
            all == Seq::new(
                outcome.failures@.len(),
                |i: int| failure_text(outcome.failures@[i]),
            ),
            failed@ == all.take(i as int),
        decreases outcome.failures@.len() - i,
    {
        let f = &outcome.failures[i];
        let mut line = "skip  ".to_owned();
        line.append(f.path.as_str());
        line.append("  (");
        line.append(f.error.as_str());
        line.append(")");
        assert(all.take(i as int).push(line@) =~= all.take(i + 1));
        failed.push(line);
        i += 1;
    }
    assert(all.take(all.len() as int) =~= all);
    (said, failed)
}

} // verus!
