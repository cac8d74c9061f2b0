//! Orchestration on top of the scanner: assemble a [`ScanReport`], and plan and execute a
//! guarded reclaim.

use vstd::prelude::*;

use crate::catalog;
use crate::catalog::{default_catalog, evaluate_catalog};
use crate::order;
use crate::path;
use crate::path::{components_of, has_part, is_absolute, is_same_path};
use crate::report;
use crate::report::{Bucket, ChildSize, DiskSpace, ScanReport};
use crate::scan;
use crate::scan::{build_tree, scan_children, Node};
use crate::signatures;
use crate::signatures::{evaluate_signatures, Hit, Signature};
use crate::text;

verus! {

/// Whether a path is the home directory.
pub open spec fn is_home(at: Seq<char>, home: Option<Seq<char>>) -> bool {
    home is Some && path::same_path(at, home.unwrap())
}

/// Whether a path is absolute, has no `..`, is not the home directory, and lies at least
/// `depth` names below the root.
pub open spec fn guarded(at: Seq<char>, home: Option<Seq<char>>, depth: nat) -> bool {
    &&& path::absolute(at)
    &&& !path::has_component(at, ".."@)
    &&& path::components(at).len() > depth
    &&& !is_home(at, home)
}

/// Whether a path may be deleted without a person looking: three names below the root.
pub open spec fn safe_to_delete(at: Seq<char>, home: Option<Seq<char>>) -> bool {
    guarded(at, home, 3)
}

/// Whether a path that a person confirmed may go to the Trash: two names below the root,
/// so that an app bundle may.
pub open spec fn safe_to_trash(at: Seq<char>, home: Option<Seq<char>>) -> bool {
    guarded(at, home, 2)
}

fn passes_guard(at: &str, home: &Option<String>, depth: usize) -> (r: bool)
    ensures
        r == guarded(at@, text::opt_text(*home), depth as nat),
{
    if !is_absolute(at) {
        return false;
    }
    if has_part(at, "..") {
        return false;
    }
    let cs = components_of(at);
    assert(text::texts(cs@).len() == cs@.len());
    if cs.len() <= depth {
        return false;
    }
    match home {
        Some(h) => !is_same_path(at, h.as_str()),
        None => true,
    }
}

/// Refuses to delete: relative paths, anything with `..`, the filesystem root or near-root,
/// and the home directory itself. Catalog entries live at `$HOME/<dir>/...`, so real targets
/// pass while dangerous paths are rejected.
pub fn is_safe_to_delete(at: &str, home: &Option<String>) -> (r: bool)
    ensures
        r == safe_to_delete(at@, text::opt_text(*home)),
{
    passes_guard(at, home, 3)
}

/// The guard for what a person picked and confirmed: like `is_safe_to_delete`, but lets a
/// path two names below the root pass, such as an app bundle.
pub fn is_safe_to_trash(at: &str, home: &Option<String>) -> (r: bool)
    ensures
        r == safe_to_trash(at@, text::opt_text(*home)),
{
    passes_guard(at, home, 2)
}

/// Dangerous paths are refused by both guards: relative ones, any with `..`, the root and
/// what lies directly below it, and the home directory.
pub proof fn guard_refuses_dangerous_paths(at: Seq<char>, home: Option<Seq<char>>)
    requires
        !path::absolute(at) || path::has_component(at, ".."@) || path::components(at).len() <= 2
            || is_home(at, home),
    ensures
        !safe_to_delete(at, home),
        !safe_to_trash(at, home),
{
}

/// What may be deleted without a person looking may also go to the Trash.
pub proof fn delete_guard_is_stricter(at: Seq<char>, home: Option<Seq<char>>)
    ensures
        safe_to_delete(at, home) ==> safe_to_trash(at, home),
{
}

/// Why a report cannot be made.
#[derive(Debug, Clone, Copy, PartialEq, Eq, Structural)]
pub enum ReportError {
    /// The tree of the root was wanted, but the root is not a directory.
    NotADirectory,
}

/// The bytes of a bucket.
pub open spec fn bucket_bytes() -> spec_fn(catalog::BucketView) -> nat {
    |b: catalog::BucketView| b.bytes
}

/// The first `top` children that hold anything.
pub open spec fn shown_children(children: Seq<scan::ChildView>, top: nat) -> Seq<scan::ChildView> {
    let kept = children.filter(|c: scan::ChildView| c.bytes > 0);
    if kept.len() > top { kept.take(top as int) } else { kept }
}

fn keep_children(children: Vec<ChildSize>, top: usize) -> (r: Vec<ChildSize>)
    ensures
        order::views(r@) == shown_children(order::views(children@), top as nat),
{
    let ghost all = order::views(children@);
    let ghost keep = |c: scan::ChildView| c.bytes > 0;
    let mut rest = children;
    let mut i: usize = 0;
    proof {
        reveal(Seq::filter);
        assert(all.take(0) =~= Seq::<scan::ChildView>::empty());
        assert(order::views(rest@.take(0)) =~= all.take(0).filter(keep));
        assert(all.skip(0) =~= all);
    }
    let n = rest.len();
    let mut seen: usize = 0;
    while seen < n
        invariant
            i <= rest@.len(),
            seen <= n,
            n == all.len(),
            rest@.len() - i == n - seen,
            keep == (|c: scan::ChildView| c.bytes > 0),
            order::views(rest@.take(i as int)) == all.take(seen as int).filter(keep),
            order::views(rest@.skip(i as int)) == all.skip(seen as int),
        decreases n - seen,
    {
        proof {
            reveal(Seq::filter);
            assert(all.take(seen + 1).drop_last() =~= all.take(seen as int));
            assert(order::views(rest@.skip(i as int))[0] == rest@[i as int]@);
            assert(all.skip(seen as int)[0] == all[seen as int]);
            assert(all.take(seen + 1).last() == rest@[i as int]@);
            assert(all.skip(seen as int).skip(1) =~= all.skip(seen + 1));
            assert(order::views(rest@.skip(i + 1)) =~= order::views(rest@.skip(i as int)).skip(1));
        }
        let len = rest.len();
        assert(i < len);
        if rest[i].bytes > 0 {
            proof {
                assert(rest@.take(i + 1) =~= rest@.take(i as int).push(rest@[i as int]));
                order::lemma_views_push(rest@.take(i as int), rest@[i as int]);
            }
            i += 1;
        } else {
            let ghost before = rest@;
            let _ = rest.remove(i);
            proof {
                assert(rest@.take(i as int) =~= before.take(i as int));
                assert(rest@.skip(i as int) =~= before.skip(i + 1));
            }
        }
        seen += 1;
    }
    proof {
        assert(rest@.take(i as int) =~= rest@);
        assert(all.take(n as int) =~= all);
    }
    let ghost kept = rest@;
    if rest.len() > top {
        rest.truncate(top);
        assert(order::views(rest@) =~= order::views(kept).take(top as int));
    }
    rest
}

/// What is wanted of a report and what was read for it.
pub struct ReportInput<'a> {
    /// Shows so many children.
    pub top: usize,
    /// Levels of the size tree; 0 leaves the tree out.
    pub depth: usize,
    /// What stands at the root.
    pub root: &'a Node,
    /// Capacity of the volume.
    pub disk: Option<DiskSpace>,
    /// What was measured at each path of the default catalog.
    pub sizes: &'a Vec<u64>,
    pub signatures: &'a Vec<Signature>,
    /// For each signature, the paths that its pattern named.
    pub hits: &'a Vec<Vec<Hit>>,
}

/// Whether everything that was read can be counted.
pub open spec fn input_fits(input: ReportInput) -> bool {
    &&& scan::bytes_of(*input.root) <= u64::MAX
    &&& input.sizes@.len() == catalog::catalog().len()
    &&& report::total(input.sizes@) <= u64::MAX
    &&& input.hits@.len() == input.signatures@.len()
    &&& forall|i: int, j: int|
        0 <= i < input.hits@.len() && 0 <= j < input.hits@[i]@.len() ==> signatures::countable(
            #[trigger] input.hits@[i]@[j],
        )
}

proof fn lemma_bucket_sum(
    entries: Seq<catalog::EntryView>,
    home: Option<Seq<char>>,
    sizes: Seq<u64>,
)
    requires
        entries.len() <= sizes.len(),
    ensures
        order::sum(catalog::buckets_of(entries, home, sizes), bucket_bytes()) == report::total(
            sizes.take(entries.len() as int),
        ),
    decreases entries.len(),
{
    if entries.len() > 0 {
        let n = entries.len() as int;
        lemma_bucket_sum(entries.drop_last(), home, sizes);
        assert(sizes.take(n).drop_last() =~= sizes.take(n - 1));
        assert(sizes.take(n).last() == sizes[n - 1]);
        let rest = catalog::buckets_of(entries.drop_last(), home, sizes);
        order::lemma_sum_push(
            rest,
            catalog::bucket_of(entries.last(), home, sizes[n - 1] as nat),
            bucket_bytes(),
        );
    } else {
        assert(sizes.take(0) =~= Seq::<u64>::empty());
    }
}

/// The buckets hold together what was measured.
pub proof fn buckets_hold_what_was_measured(
    entries: Seq<catalog::EntryView>,
    home: Option<Seq<char>>,
    sizes: Seq<u64>,
)
    requires
        entries.len() == sizes.len(),
    ensures
        order::sum(catalog::evaluated(entries, home, sizes), bucket_bytes()) == report::total(
            sizes,
        ),
{
    lemma_bucket_sum(entries, home, sizes);
    assert(sizes.take(entries.len() as int) =~= sizes);
    order::lemma_sum_ordered(
        catalog::buckets_of(entries, home, sizes),
        catalog::larger_bucket(),
        bucket_bytes(),
    );
}

fn total_buckets(buckets: &Vec<Bucket>) -> (r: u64)
    requires
        order::sum(order::views(buckets@), bucket_bytes()) <= u64::MAX,
    ensures
        r == order::sum(order::views(buckets@), bucket_bytes()),
{
    let ghost all = order::views(buckets@);
    let mut sum: u64 = 0;
    let mut i: usize = 0;
    assert(all.take(0) =~= Seq::<catalog::BucketView>::empty());
    while i < buckets.len()
        invariant
            i <= buckets@.len(),
            all == order::views(buckets@),
            order::sum(all, bucket_bytes()) <= u64::MAX,
            sum == order::sum(all.take(i as int), bucket_bytes()),
        decreases buckets@.len() - i,
    {
        proof {
            order::lemma_sum_step(all, i as int, bucket_bytes());
        }
        sum += buckets[i].bytes;
        i += 1;
    }
    assert(all.take(all.len() as int) =~= all);
    sum
}

/// Builds the full scan report: tree breakdown, reclaimable buckets, and fired leak
/// signatures. Without a depth the child breakdown is skipped; with one, the root has to be
/// a directory.
pub fn build_report(root: &str, home: &Option<String>, input: ReportInput) -> (r: Result<
    ScanReport,
    ReportError,
>)
    requires
        input_fits(input),
    ensures
        r is Err == (input.depth > 0 && !(*input.root is Dir)),
        r matches Ok(rep) ==> {
            &&& rep.root@ == root@
            &&& rep.disk == input.disk
            &&& order::views(rep.buckets@) == catalog::evaluated(
                catalog::catalog(),
                text::opt_text(*home),
                input.sizes@,
            )
            &&& rep.reclaimable_bytes == report::total(input.sizes@)
            &&& order::views(rep.findings@) == order::ordered(
                signatures::findings_of(input.signatures@, input.hits@),
                signatures::larger_finding(),
            )
            &&& rep.tree is Some == (input.depth > 0)
            &&& input.depth == 0 ==> rep.total_bytes == 0 && rep.children@.len() == 0
            &&& input.depth > 0 ==> {
                &&& rep.total_bytes == scan::bytes_of(*input.root)
                &&& order::views(rep.children@) == shown_children(
                    order::ordered(
                        scan::children_of(root@, input.root->Dir_0@),
                        scan::larger_child(),
                    ),
                    input.top as nat,
                )
                &&& scan::tree_view(rep.tree.unwrap()) == scan::tree_of(
                    root@,
                    *input.root,
                    input.depth as nat,
                )
            }
        },
{
    let mut total_bytes: u64 = 0;
    let mut children: Vec<ChildSize> = Vec::new();
    let mut tree = None;
    if input.depth > 0 {
        match input.root {
            Node::Dir(entries) => {
                let (sum, sized) = scan_children(root, entries);
                total_bytes = sum;
                children = keep_children(sized, input.top);
                tree = Some(build_tree(root, input.root, input.depth));
            },
            _ => {
                return Err(ReportError::NotADirectory);
            },
        }
    }
    let entries = default_catalog();
    assert(entries@.len() == order::views(entries@).len());
    let buckets = evaluate_catalog(&entries, home, input.sizes);
    proof {
        buckets_hold_what_was_measured(catalog::catalog(), text::opt_text(*home), input.sizes@);
    }
    let reclaimable_bytes = total_buckets(&buckets);
    let findings = evaluate_signatures(input.signatures, input.hits);
    Ok(
        ScanReport {
            root: root.to_owned(),
            disk: input.disk,
            total_bytes,
            children,
            tree,
            reclaimable_bytes,
            buckets,
            findings,
        },
    )
}

/// A location that could be reclaimed.
#[derive(Debug)]
pub struct ReclaimTarget {
    pub name: String,
    pub path: String,
    pub bytes: u64,
    pub note: String,
    /// True when this target is safe to delete automatically.
    pub auto: bool,
}

/// What a reclaim target says.
pub struct TargetView {
    pub name: Seq<char>,
    pub path: Seq<char>,
    pub bytes: nat,
    pub note: Seq<char>,
    pub auto: bool,
}

impl View for ReclaimTarget {
    type V = TargetView;

    open spec fn view(&self) -> TargetView {
        TargetView {
            name: self.name@,
            path: self.path@,
            bytes: self.bytes as nat,
            note: self.note@,
            auto: self.auto,
        }
    }
}

/// The catalog, parted by what may be deleted automatically.
#[derive(Debug)]
pub struct ReclaimPlan {
    /// Regenerable, safe to delete.
    pub auto_targets: Vec<ReclaimTarget>,
    /// Reported, but to be reviewed and handled by hand.
    pub manual_targets: Vec<ReclaimTarget>,
    pub auto_bytes: u64,
}

/// The target for a bucket: automatic where it is regenerable and passes the guard.
pub open spec fn target_of(b: catalog::BucketView, home: Option<Seq<char>>) -> TargetView {
    TargetView {
        name: b.name,
        path: b.path,
        bytes: b.bytes,
        note: b.note,
        auto: b.safe_auto && safe_to_delete(b.path, home),
    }
}

/// The targets for the buckets that are automatic, or for those that are not, in order.
pub open spec fn targets_of(
    bs: Seq<catalog::BucketView>,
    home: Option<Seq<char>>,
    auto: bool,
) -> Seq<TargetView>
    decreases bs.len(),
{
    if bs.len() == 0 {
        Seq::empty()
    } else {
        let rest = targets_of(bs.drop_last(), home, auto);
        let t = target_of(bs.last(), home);
        if t.auto == auto { rest.push(t) } else { rest }
    }
}

/// The bytes of a target.
pub open spec fn target_bytes() -> spec_fn(TargetView) -> nat {
    |t: TargetView| t.bytes
}

/// What a plan holds for evaluated buckets.
pub open spec fn is_plan_for(
    plan: ReclaimPlan,
    bs: Seq<catalog::BucketView>,
    home: Option<Seq<char>>,
) -> bool {
    &&& order::views(plan.auto_targets@) == targets_of(bs, home, true)
    &&& order::views(plan.manual_targets@) == targets_of(bs, home, false)
    &&& plan.auto_bytes == order::sum(targets_of(bs, home, true), target_bytes())
}

/// Every bucket is planned once: automatic and manual targets together are as many, and hold
/// as much, as the buckets.
pub proof fn plan_parts_the_buckets(bs: Seq<catalog::BucketView>, home: Option<Seq<char>>)
    ensures
        targets_of(bs, home, true).len() + targets_of(bs, home, false).len() == bs.len(),
        order::sum(targets_of(bs, home, true), target_bytes()) + order::sum(
            targets_of(bs, home, false),
            target_bytes(),
        ) == order::sum(bs, bucket_bytes()),
    decreases bs.len(),
{
    if bs.len() > 0 {
        plan_parts_the_buckets(bs.drop_last(), home);
        let t = target_of(bs.last(), home);
        order::lemma_sum_push(targets_of(bs.drop_last(), home, t.auto), t, target_bytes());
    }
}

/// Only what is regenerable and passes the guard is ever planned to be deleted automatically.
pub proof fn automatic_targets_pass_the_guard(
    bs: Seq<catalog::BucketView>,
    home: Option<Seq<char>>,
    i: int,
)
    requires
        0 <= i < targets_of(bs, home, true).len(),
    ensures
        targets_of(bs, home, true)[i].auto,
        safe_to_delete(targets_of(bs, home, true)[i].path, home),
    decreases bs.len(),
{
    if bs.len() > 0 && i < targets_of(bs.drop_last(), home, true).len() {
        automatic_targets_pass_the_guard(bs.drop_last(), home, i);
    }
}

proof fn lemma_target_has_bucket(
    bs: Seq<catalog::BucketView>,
    home: Option<Seq<char>>,
    auto: bool,
    i: int,
) -> (k: int)
    requires
        0 <= i < targets_of(bs, home, auto).len(),
    ensures
        0 <= k < bs.len(),
        targets_of(bs, home, auto)[i] == target_of(bs[k], home),
        target_of(bs[k], home).auto == auto,
    decreases bs.len(),
{
    let rest = targets_of(bs.drop_last(), home, auto);
    if i < rest.len() {
        lemma_target_has_bucket(bs.drop_last(), home, auto, i)
    } else {
        bs.len() - 1
    }
}

/// Only entries of the catalog that are marked as regenerable, at their place below the home
/// directory, are ever planned to be deleted automatically.
pub proof fn only_caches_below_home_are_automatic(home: Seq<char>, sizes: Seq<u64>, i: int)
    requires
        0 <= i < targets_of(
            catalog::evaluated(catalog::catalog(), Some(home), sizes),
            Some(home),
            true,
        ).len(),
    ensures
        ({
            let t = targets_of(
                catalog::evaluated(catalog::catalog(), Some(home), sizes),
                Some(home),
                true,
            )[i];
            &&& t.path.len() > home.len() + 1
            &&& t.path.take(home.len() as int) == home
            &&& t.path[home.len() as int] == '/'
            &&& exists|k: int|
                0 <= k < catalog::catalog().len() && (#[trigger] catalog::catalog()[k]).safe_auto
                    && t.name == catalog::catalog()[k].name && t.path == catalog::location(
                    catalog::catalog()[k],
                    Some(home),
                )
        }),
{
    let bs = catalog::evaluated(catalog::catalog(), Some(home), sizes);
    let j = lemma_target_has_bucket(bs, Some(home), true, i);
    order::lemma_ordered_contains(
        catalog::buckets_of(catalog::catalog(), Some(home), sizes),
        bs[j],
        catalog::larger_bucket(),
    );
    assert(bs.contains(bs[j]));
    let k = catalog::lemma_bucket_has_entry(catalog::catalog(), Some(home), sizes, bs[j]);
    catalog::catalog_lies_below_home(home, k);
    assert(catalog::catalog()[k].safe_auto);
}

/// Parts evaluated buckets into automatic and manual reclaim targets.
pub fn plan_buckets(buckets: Vec<Bucket>, home: &Option<String>) -> (r: ReclaimPlan)
    requires
        order::sum(order::views(buckets@), bucket_bytes()) <= u64::MAX,
    ensures
        is_plan_for(r, order::views(buckets@), text::opt_text(*home)),
{
    let ghost h = text::opt_text(*home);
    let ghost all = order::views(buckets@);
    let mut auto_targets: Vec<ReclaimTarget> = Vec::new();
    let mut manual_targets: Vec<ReclaimTarget> = Vec::new();
    let mut auto_bytes: u64 = 0;
    let mut i: usize = 0;
    proof {
        assert(all.take(0) =~= Seq::<catalog::BucketView>::empty());
        assert(order::views(auto_targets@) =~= Seq::<TargetView>::empty());
        assert(order::views(manual_targets@) =~= Seq::<TargetView>::empty());
    }
    while i < buckets.len()
        invariant
            i <= buckets@.len(),
            all == order::views(buckets@),
            h == text::opt_text(*home),
            order::sum(all, bucket_bytes()) <= u64::MAX,
            order::views(auto_targets@) == targets_of(all.take(i as int), h, true),
            order::views(manual_targets@) == targets_of(all.take(i as int), h, false),
            auto_bytes == order::sum(targets_of(all.take(i as int), h, true), target_bytes()),
        decreases buckets@.len() - i,
    {
        proof {
            let now = all.take(i + 1);
            assert(now.drop_last() =~= all.take(i as int));
            assert(now.last() == buckets@[i as int]@);
            plan_parts_the_buckets(now, h);
            order::lemma_sum_take(all, i + 1, bucket_bytes());
            order::lemma_sum_push(
                targets_of(all.take(i as int), h, true),
                target_of(now.last(), h),
                target_bytes(),
            );
        }
        let b = &buckets[i];
        let auto = b.safe_auto && is_safe_to_delete(b.path.as_str(), home);
        let t = ReclaimTarget {
            name: b.name.clone(),
            path: b.path.clone(),
            bytes: b.bytes,
            note: b.note.clone(),
            auto,
        };
        if auto {
            proof {
                order::lemma_views_push(auto_targets@, t);
            }
            auto_bytes += t.bytes;
            auto_targets.push(t);
        } else {
            proof {
                order::lemma_views_push(manual_targets@, t);
            }
            manual_targets.push(t);
        }
        i += 1;
    }
    assert(all.take(all.len() as int) =~= all);
    ReclaimPlan { auto_targets, manual_targets, auto_bytes }
}

/// Parts the catalog into automatic and manual reclaim targets. `sizes` holds what was
/// measured at each path of the default catalog.
pub fn build_reclaim_plan(home: &Option<String>, sizes: &Vec<u64>) -> (r: ReclaimPlan)
    requires
        sizes@.len() == catalog::catalog().len(),
        report::total(sizes@) <= u64::MAX,
    ensures
        is_plan_for(
            r,
            catalog::evaluated(catalog::catalog(), text::opt_text(*home), sizes@),
            text::opt_text(*home),
        ),
{
    let entries = default_catalog();
    assert(entries@.len() == order::views(entries@).len());
    let buckets = evaluate_catalog(&entries, home, sizes);
    proof {
        buckets_hold_what_was_measured(catalog::catalog(), text::opt_text(*home), sizes@);
    }
    plan_buckets(buckets, home)
}

/// What became of one target.
#[derive(Debug)]
pub struct ReclaimOutcome {
    pub name: String,
    pub path: String,
    pub bytes: u64,
    pub ok: bool,
    pub error: Option<String>,
}

/// What became of a reclaim.
#[derive(Debug)]
pub struct ReclaimResult {
    pub deleted: Vec<ReclaimOutcome>,
    pub freed_bytes: u64,
}

/// Whether `o` is what becomes of `t`: refused where it fails the guard, else what `delete`
/// said of its path.
pub open spec fn is_outcome_of<F: Fn(&String) -> Result<(), String>>(
    o: ReclaimOutcome,
    t: ReclaimTarget,
    home: Option<Seq<char>>,
    delete: F,
) -> bool {
    &&& o.name == t.name
    &&& o.path == t.path
    &&& o.bytes == t.bytes
    &&& if !safe_to_delete(t.path@, home) {
        !o.ok && text::opt_text(o.error) == Some("refused: failed safety guard"@)
    } else {
        exists|res: Result<(), String>| #[trigger]
            call_ensures(delete, (&t.path,), res) && o.ok == res is Ok && o.error == res.err()
    }
}

/// The bytes of an outcome that freed something.
pub open spec fn freed() -> spec_fn(ReclaimOutcome) -> nat {
    |o: ReclaimOutcome|
        if o.ok {
            o.bytes as nat
        } else {
            0
        }
}

/// The bytes of a list of targets.
pub open spec fn targets_total(ts: Seq<ReclaimTarget>) -> nat {
    order::sum(order::views(ts), target_bytes())
}

/// Deletes each target with `delete`, which is never called on a path that fails the safety
/// guard.
pub fn execute_reclaim_with<F: Fn(&String) -> Result<(), String>>(
    targets: &Vec<ReclaimTarget>,
    home: &Option<String>,
    delete: F,
) -> (r: ReclaimResult)
    requires
        targets_total(targets@) <= u64::MAX,
        forall|i: int|
            0 <= i < targets@.len() && safe_to_delete(
                (#[trigger] targets@[i]).path@,
                text::opt_text(*home),
            ) ==> call_requires(delete, (&targets@[i].path,)),
    ensures
        r.deleted@.len() == targets@.len(),
        forall|i: int|
            0 <= i < targets@.len() ==> is_outcome_of(
                #[trigger] r.deleted@[i],
                targets@[i],
                text::opt_text(*home),
                delete,
            ),
        r.freed_bytes == order::sum(r.deleted@, freed()),
{
    let ghost h = text::opt_text(*home);
    let ghost all = order::views(targets@);
    let mut deleted: Vec<ReclaimOutcome> = Vec::new();
    let mut freed_bytes: u64 = 0;
    let mut i: usize = 0;
    assert(all.take(0) =~= Seq::<TargetView>::empty());
    while i < targets.len()
        invariant
            i <= targets@.len(),
            h == text::opt_text(*home),
            all == order::views(targets@),
            order::sum(all, target_bytes()) <= u64::MAX,
            forall|i: int|
                0 <= i < targets@.len() && safe_to_delete(
                    (#[trigger] targets@[i]).path@,
                    h,
                ) ==> call_requires(delete, (&targets@[i].path,)),
            deleted@.len() == i,
            forall|j: int|
                0 <= j < i ==> is_outcome_of(#[trigger] deleted@[j], targets@[j], h, delete),
            freed_bytes == order::sum(deleted@, freed()),
            freed_bytes <= order::sum(all.take(i as int), target_bytes()),
        decreases targets@.len() - i,
    {
        proof {
            order::lemma_sum_step(all, i as int, target_bytes());
        }
        let t = &targets[i];
        let mut ok = false;
        let mut error: Option<String> = None;
        if !is_safe_to_delete(t.path.as_str(), home) {
            error = Some("refused: failed safety guard".to_owned());
        } else {
            assert(targets@[i as int] == *t);
            let res = delete(&t.path);
            assert(call_ensures(delete, (&t.path,), res));
            match res {
                Ok(_) => {
                    ok = true;
                    freed_bytes += t.bytes;
                },
                Err(e) => {
                    error = Some(e);
                },
            }
        }
        let o = ReclaimOutcome {
            name: t.name.clone(),
            path: t.path.clone(),
            bytes: t.bytes,
            ok,
            error,
        };
        proof {
            order::lemma_sum_push(deleted@, o, freed());
            assert(is_outcome_of(o, *t, h, delete));
        }
        deleted.push(o);
        i += 1;
    }
    ReclaimResult { deleted, freed_bytes }
}

} // verus!
