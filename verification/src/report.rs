//! Shared result types and formatting helpers.

use vstd::prelude::*;

use crate::double;
use crate::double::{nearest_of, round_div};
use crate::text;
use crate::text::decimal_text;

verus! {

/// Bytes in a megabyte.
pub const MB: u64 = 0x10_0000;

/// Bytes in a gigabyte.
pub const GB: u64 = 0x4000_0000;

/// A quotient of two counts, kept exact.
#[derive(Debug, Clone, Copy, PartialEq, Eq, Structural)]
pub struct Ratio {
    pub part: u64,
    pub whole: u64,
}

/// Size of one immediate child of a scanned root (the "where did it go" view).
#[derive(Debug)]
pub struct ChildSize {
    pub name: String,
    pub path: String,
    pub bytes: u64,
}

/// A known reclaimable location (the broad, every-Mac coverage).
#[derive(Debug)]
pub struct Bucket {
    pub name: String,
    pub category: String,
    pub path: String,
    pub bytes: u64,
    pub note: String,
    /// Regenerable, so it may be cleared without review.
    pub safe_auto: bool,
}

/// How much a finding matters.
#[derive(Debug, Clone, Copy, PartialEq, Eq, PartialOrd, Ord, Structural)]
pub enum Severity {
    Info,
    Warn,
    Critical,
}

/// The rank of a severity, lowest first.
pub open spec fn rank(s: Severity) -> nat {
    match s {
        Severity::Info => 0,
        Severity::Warn => 1,
        Severity::Critical => 2,
    }
}

/// A leak flagged by a signature whose path exceeded its baseline.
#[derive(Debug)]
pub struct Finding {
    pub name: String,
    pub description: String,
    pub path: String,
    pub bytes: u64,
    pub baseline_bytes: u64,
    pub owner: Option<String>,
    pub severity: Severity,
    pub root_cause: Option<String>,
    pub prevention: Option<String>,
    pub safe_delete: String,
    pub file_matches: Option<u64>,
}

/// A directory of the nested size tree.
#[derive(Debug)]
pub struct TreeNode {
    pub name: String,
    pub bytes: u64,
    pub children: Vec<TreeNode>,
}

/// Capacity of a volume.
#[derive(Debug)]
pub struct DiskSpace {
    pub path: String,
    pub total: u64,
    pub used: u64,
    pub free: u64,
}

/// What is known about the space of a volume.
#[derive(Debug)]
pub struct SpaceReport {
    pub disk: Option<DiskSpace>,
    pub snapshots: Vec<String>,
    /// The command that thins the snapshots; printed, never run.
    pub reclaim_snapshots: Option<String>,
}

/// The result of a scan.
#[derive(Debug)]
pub struct ScanReport {
    pub root: String,
    pub disk: Option<DiskSpace>,
    pub total_bytes: u64,
    pub children: Vec<ChildSize>,
    pub tree: Option<TreeNode>,
    pub reclaimable_bytes: u64,
    pub buckets: Vec<Bucket>,
    pub findings: Vec<Finding>,
}

/// A file that is large on its own.
#[derive(Debug)]
pub struct LargeFile {
    pub path: String,
    pub bytes: u64,
    pub modified_days: Option<u64>,
    pub accessed_days: Option<u64>,
}

/// Files with the same contents.
#[derive(Debug)]
pub struct DuplicateGroup {
    /// Size of one copy.
    pub bytes: u64,
    /// What keeping only one copy would free.
    pub wasted: u64,
    pub paths: Vec<String>,
}

/// How sure a leftover belongs to an app.
#[derive(Debug, Clone, Copy, PartialEq, Eq, Structural)]
pub enum Confidence {
    /// The name carries the bundle id.
    High,
    /// The name starts with the app's name.
    Medium,
}

/// A support file of an app.
#[derive(Debug)]
pub struct Leftover {
    pub path: String,
    pub bytes: u64,
    pub confidence: Confidence,
    pub location: String,
}

/// What uninstalling an app would remove.
#[derive(Debug)]
pub struct UninstallPlan {
    pub app_name: String,
    pub bundle_id: Option<String>,
    pub app_path: Option<String>,
    pub app_bytes: u64,
    pub leftovers: Vec<Leftover>,
    pub total_bytes: u64,
}

/// What became of one path of an uninstall.
#[derive(Debug)]
pub struct UninstallOutcome {
    pub path: String,
    pub bytes: u64,
    pub ok: bool,
    pub error: Option<String>,
}

/// The index of the unit in which the double `n` is printed.
pub open spec fn unit_index(n: nat) -> nat {
    if n < 0x400 {
        0
    } else if n < 0x10_0000 {
        1
    } else if n < 0x4000_0000 {
        2
    } else if n < 0x100_0000_0000 {
        3
    } else if n < 0x4_0000_0000_0000 {
        4
    } else {
        5
    }
}

/// Bytes in a unit.
pub open spec fn unit_size(k: nat) -> nat {
    if k == 0 {
        1
    } else if k == 1 {
        0x400
    } else if k == 2 {
        0x10_0000
    } else if k == 3 {
        0x4000_0000
    } else if k == 4 {
        0x100_0000_0000
    } else {
        0x4_0000_0000_0000
    }
}

/// The name of a unit.
pub open spec fn unit_name(k: nat) -> Seq<char> {
    if k == 0 {
        "B"@
    } else if k == 1 {
        "KB"@
    } else if k == 2 {
        "MB"@
    } else if k == 3 {
        "GB"@
    } else if k == 4 {
        "TB"@
    } else {
        "PB"@
    }
}

/// A byte count for people: whole bytes, or one decimal in the largest unit that fits,
/// the double of the count rounded half to even.
pub open spec fn human_text(bytes: nat) -> Seq<char> {
    let n = double::nearest(bytes);
    let k = unit_index(n);
    if k == 0 {
        text::decimal(bytes) + " "@ + unit_name(0)
    } else {
        let tenths = double::round_half_even(10 * n, unit_size(k));
        text::decimal(tenths / 10) + "."@ + text::decimal(tenths % 10) + " "@ + unit_name(k)
    }
}

fn unit_of(n: u128) -> (r: (u128, &'static str))
    ensures
        r.0 == unit_size(unit_index(n as nat)),
        r.1@ == unit_name(unit_index(n as nat)),
{
    if n < 0x400 {
        (1, "B")
    } else if n < 0x10_0000 {
        (0x400, "KB")
    } else if n < 0x4000_0000 {
        (0x10_0000, "MB")
    } else if n < 0x100_0000_0000 {
        (0x4000_0000, "GB")
    } else if n < 0x4_0000_0000_0000 {
        (0x100_0000_0000, "TB")
    } else {
        (0x4_0000_0000_0000, "PB")
    }
}

/// Human-readable byte size, e.g. `161.4 GB`.
pub fn human(bytes: u64) -> (r: String)
    ensures
        r@ == human_text(bytes as nat),
{
    let n = nearest_of(bytes as u128);
    let (size, name) = unit_of(n);
    if size == 1 {
        proof {
            if n >= 0x400 {
                assert(size >= 0x400);
            }
        }
        let mut r = decimal_text(bytes);
        r.append(" ");
        r.append(name);
        return r;
    }
    let tenths = round_div(10 * n, size);
    proof {
        assert(unit_index(n as nat) != 0);
        lemma_tenths_small(n as nat, size as nat);
    }
    let t = tenths as u64;
    let mut r = decimal_text(t / 10);
    r.append(".");
    r.append(decimal_text(t % 10).as_str());
    r.append(" ");
    r.append(name);
    r
}

proof fn lemma_tenths_small(n: nat, size: nat)
    requires
        size == unit_size(unit_index(n)),
        n <= 0x1_FFFF_FFFF_FFFF_FFFF,
        size >= 0x400,
    ensures
        double::round_half_even(10 * n, size) <= 0xFFFF_FFFF,
{
    let q = (10 * n) / size;
    assert(q <= 0xFFFF_FFF0) by (nonlinear_arith)
        requires
            q == (10 * n) / size,
            size >= 0x400,
            n < size * 0x400 || (size == 0x4_0000_0000_0000 && n <= 0x1_FFFF_FFFF_FFFF_FFFF),
    ;
}

/// The total of a list of sizes.
pub open spec fn total(sizes: Seq<u64>) -> nat
    decreases sizes.len(),
{
    if sizes.len() == 0 { 0 } else { total(sizes.drop_last()) + sizes.last() as nat }
}

/// The total up to a point is no more than the whole.
pub proof fn lemma_total_prefix(sizes: Seq<u64>, k: int)
    requires
        0 <= k <= sizes.len(),
    ensures
        total(sizes.take(k)) <= total(sizes),
    decreases sizes.len(),
{
    if k < sizes.len() {
        assert(sizes.drop_last().take(k) =~= sizes.take(k));
        lemma_total_prefix(sizes.drop_last(), k);
    } else {
        assert(sizes.take(k) =~= sizes);
    }
}

/// The total of `sizes`, where it fits.
pub fn checked_total(sizes: &Vec<u64>) -> (r: Option<u64>)
    ensures
        r == (if total(sizes@) <= u64::MAX { Some(total(sizes@) as u64) } else { None }),
{
    let mut sum: u64 = 0;
    let mut i: usize = 0;
    assert(sizes@.take(0) =~= Seq::<u64>::empty());
    while i < sizes.len()
        invariant
            i <= sizes@.len(),
            sum == total(sizes@.take(i as int)),
        decreases sizes@.len() - i,
    {
        proof {
            assert(sizes@.take(i + 1).drop_last() =~= sizes@.take(i as int));
            lemma_total_prefix(sizes@, i + 1);
        }
        match sum.checked_add(sizes[i]) {
            Some(s) => {
                sum = s;
            },
            None => {
                return None;
            },
        }
        i += 1;
    }
    assert(sizes@.take(sizes@.len() as int) =~= sizes@);
    Some(sum)
}

/// `mb` megabytes in bytes, as far as they can be counted.
pub open spec fn megabytes(mb: nat) -> nat {
    if mb * 0x10_0000 <= u64::MAX { mb * 0x10_0000 } else { u64::MAX as nat }
}

/// `mb` megabytes in bytes; the largest count where that is too many.
pub fn mb_bytes(mb: u64) -> (r: u64)
    ensures
        r == megabytes(mb as nat),
{
    if mb <= 0xFFF_FFFF_FFFF {
        mb * 0x10_0000
    } else {
        u64::MAX
    }
}

/// The highest severity of a list, if it holds any.
pub open spec fn highest(s: Seq<Severity>) -> Option<Severity>
    decreases s.len(),
{
    if s.len() == 0 {
        None
    } else {
        match highest(s.drop_last()) {
            Some(m) => if rank(s.last()) >= rank(m) { Some(s.last()) } else { Some(m) },
            None => Some(s.last()),
        }
    }
}

/// The highest severity bounds every one of the list and occurs in it.
pub proof fn highest_is_a_bound(s: Seq<Severity>)
    requires
        s.len() > 0,
    ensures
        highest(s) is Some,
        s.contains(highest(s).unwrap()),
        forall|i: int| 0 <= i < s.len() ==> rank(#[trigger] s[i]) <= rank(highest(s).unwrap()),
    decreases s.len(),
{
    let t = s.drop_last();
    assert(s[s.len() - 1] == s.last());
    if t.len() > 0 {
        highest_is_a_bound(t);
        let k = choose|k: int| 0 <= k < t.len() && t[k] == highest(t).unwrap();
        assert(s[k] == highest(t).unwrap());
        assert forall|i: int| 0 <= i < s.len() implies rank(#[trigger] s[i]) <= rank(
            highest(s).unwrap(),
        ) by {
            if i < t.len() {
                assert(t[i] == s[i]);
            }
        }
    }
}

fn rank_of(s: Severity) -> (r: u8)
    ensures
        r == rank(s),
{
    match s {
        Severity::Info => 0,
        Severity::Warn => 1,
        Severity::Critical => 2,
    }
}

/// The highest severity of a list, if it holds any.
pub fn max_severity(s: &Vec<Severity>) -> (r: Option<Severity>)
    ensures
        r == highest(s@),
{
    let mut best: Option<Severity> = None;
    let mut i: usize = 0;
    assert(s@.take(0) =~= Seq::<Severity>::empty());
    while i < s.len()
        invariant
            i <= s@.len(),
            best == highest(s@.take(i as int)),
        decreases s@.len() - i,
    {
        proof {
            assert(s@.take(i + 1).drop_last() =~= s@.take(i as int));
            assert(s@.take(i + 1).last() == s@[i as int]);
        }
        best =
        match best {
            Some(m) => if rank_of(s[i]) >= rank_of(m) {
                Some(s[i])
            } else {
                Some(m)
            },
            None => Some(s[i]),
        };
        i += 1;
    }
    assert(s@.take(s@.len() as int) =~= s@);
    best
}

} // verus!
