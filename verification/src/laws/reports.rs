//! Printed reports: what their lines say, and that none leaves anything out.

use vstd::prelude::*;

use crate::anomaly::Anomaly;
use crate::engine::{ReclaimOutcome, ReclaimPlan, ReclaimTarget};
use crate::order;
use crate::render;
use crate::render::Palette;
use crate::report;
use crate::report::{
    Bucket, ChildSize, DiskSpace, DuplicateGroup, Finding, LargeFile, Leftover,
    ScanReport, SpaceReport, TreeNode, UninstallOutcome, UninstallPlan,
};
use crate::text;

verus! {

/// Whether a line holds a text somewhere.
pub open spec fn says(line: Seq<char>, part: Seq<char>) -> bool {
    exists|a: Seq<char>, b: Seq<char>| line == #[trigger] (a + part + b)
}

proof fn lemma_says_itself(part: Seq<char>)
    ensures
        says(part, part),
{
    let nil = Seq::<char>::empty();
    assert(part =~= nil + part + nil);
}

broadcast proof fn lemma_says(x: Seq<char>, y: Seq<char>, part: Seq<char>)
    requires
        says(x, part) || y == part,
    ensures
        #[trigger] says(x + y, part),
{
    if says(x, part) {
        let (a, b) = choose|a: Seq<char>, b: Seq<char>| x == #[trigger] (a + part + b);
        assert(x + y =~= a + part + (b + y));
    } else {
        assert(x + y =~= x + part + Seq::<char>::empty());
    }
}

/// A size that is aligned in its column is still that size.
proof fn lemma_aligned(s: Seq<char>, width: nat)
    ensures
        says(text::right_aligned(s, width), s),
        says(text::left_aligned(s, width), s),
{
    crate::laws::texts::aligning_only_adds_blanks(s, width);
    broadcast use lemma_says;

    lemma_says_itself(s);
}

broadcast proof fn lemma_says_aligned(x: Seq<char>, s: Seq<char>, width: nat)
    ensures
        #[trigger] says(x + text::right_aligned(s, width), s),
{
    lemma_aligned(s, width);
    let y = text::right_aligned(s, width);
    let (a, b) = choose|a: Seq<char>, b: Seq<char>| y == #[trigger] (a + s + b);
    assert(x + y =~= (x + a) + s + b);
}

/// The line of a large file says its path, its size and its age.
pub proof fn large_files_are_told(p: Palette, f: LargeFile)
    ensures
        says(render::large_text(p, f), f.path@),
        says(render::large_text(p, f), report::human_text(f.bytes as nat)),
        f.modified_days matches Some(d) ==> says(
            render::large_text(p, f),
            text::decimal(d as nat) + "d"@,
        ),
        f.modified_days is None ==> says(render::large_text(p, f), "?"@),
{
    broadcast use lemma_says, lemma_says_aligned;

}

/// The lines of a group of duplicates say what it wastes, how many copies there are and how
/// large each is, and the path of every copy.
pub proof fn duplicates_are_told(p: Palette, g: DuplicateGroup, k: int)
    requires
        0 <= k < g.paths@.len(),
    ensures
        render::dupe_block(p, g).len() == 1 + g.paths@.len(),
        says(render::dupe_block(p, g)[0], report::human_text(g.wasted as nat)),
        says(render::dupe_block(p, g)[0], report::human_text(g.bytes as nat)),
        says(render::dupe_block(p, g)[0], text::decimal(g.paths@.len())),
        says(render::dupe_block(p, g)[1 + k], g.paths@[k]@),
{
    broadcast use lemma_says, lemma_says_aligned;

    assert(render::dupe_block(p, g)[0] == render::dupe_text(p, g));
    assert(render::dupe_block(p, g)[1 + k] == render::dupe_path_text(p, g.paths@[k]));
}

/// The line of a leftover says its path, its location, its size and how sure it is.
pub proof fn leftovers_are_told(p: Palette, l: Leftover)
    ensures
        says(render::leftover_text(p, l), l.path@),
        says(render::leftover_text(p, l), l.location@),
        says(render::leftover_text(p, l), report::human_text(l.bytes as nat)),
        l.confidence is High ==> says(render::leftover_text(p, l), "high"@),
        l.confidence is Medium ==> says(render::leftover_text(p, l), "med?"@),
{
    broadcast use lemma_says, lemma_says_aligned;

}

/// The line on what became of a removal says its path, its size, whether it went and, where it
/// did not, why.
pub proof fn removals_are_told(p: Palette, o: UninstallOutcome)
    ensures
        says(render::removed_text(p, o), o.path@),
        says(render::removed_text(p, o), report::human_text(o.bytes as nat)),
        o.ok ==> says(render::removed_text(p, o), "trashed"@),
        !o.ok ==> says(render::removed_text(p, o), "skip"@),
        !o.ok && o.error is Some ==> says(render::removed_text(p, o), o.error.unwrap()@),
{
    broadcast use lemma_says, lemma_says_aligned;

}

/// The line on what became of a target says its name, its size, whether it was freed and, where
/// it was not, why.
pub proof fn reclaims_are_told(p: Palette, o: ReclaimOutcome)
    ensures
        says(render::reclaimed_text(p, o), o.name@),
        says(render::reclaimed_text(p, o), report::human_text(o.bytes as nat)),
        o.ok ==> says(render::reclaimed_text(p, o), "freed"@),
        !o.ok ==> says(render::reclaimed_text(p, o), "skip"@),
        !o.ok && o.error is Some ==> says(render::reclaimed_text(p, o), o.error.unwrap()@),
{
    broadcast use lemma_says, lemma_says_aligned;

}

/// The line of a target says its name, its note and its size.
pub proof fn targets_are_told(p: Palette, t: ReclaimTarget)
    ensures
        says(render::auto_text(p, t), t.name@),
        says(render::auto_text(p, t), t.note@),
        says(render::auto_text(p, t), report::human_text(t.bytes as nat)),
        says(render::manual_text(p, t), t.name@),
        says(render::manual_text(p, t), t.note@),
        says(render::manual_text(p, t), report::human_text(t.bytes as nat)),
{
    broadcast use lemma_says, lemma_says_aligned;

}

/// The line of a bucket says its name, its note and its size, and whether it is safe.
pub proof fn buckets_are_told(p: Palette, b: Bucket)
    ensures
        says(render::bucket_text(p, b), b.name@),
        says(render::bucket_text(p, b), b.note@),
        says(render::bucket_text(p, b), report::human_text(b.bytes as nat)),
        render::bucket_style(p, b.safe_auto).0 == (if b.safe_auto {
            "[safe]"@
        } else {
            "[review]"@
        }),
        says(render::bucket_text(p, b), text::left_aligned(render::bucket_style(p, b.safe_auto).0, 8)),
{
    broadcast use lemma_says, lemma_says_aligned;

}

/// The line of a finding says its severity, its name, its size and its baseline.
pub proof fn findings_are_told(p: Palette, f: Finding)
    ensures
        says(render::leak_text(p, f), f.name@),
        says(render::leak_text(p, f), report::human_text(f.bytes as nat)),
        says(render::leak_text(p, f), report::human_text(f.baseline_bytes as nat)),
        f.severity is Critical ==> says(render::leak_text(p, f), "CRIT"@),
        f.severity is Warn ==> says(render::leak_text(p, f), "WARN"@),
        f.severity is Info ==> says(render::leak_text(p, f), "INFO"@),
{
    broadcast use lemma_says, lemma_says_aligned;

}

/// The lines below a finding say its path and how to remove it, and its owner, matches, cause
/// and prevention as far as they are known.
pub proof fn findings_are_told_in_full(p: Palette, f: Finding)
    ensures
        ({
            let lines = render::leak_block(p, f);
            let known = |n: bool| if n { 1int } else { 0int };
            &&& lines.len() == 3 + known(f.owner is Some) + known(f.file_matches is Some) + known(
                f.root_cause is Some,
            ) + known(f.prevention is Some)
            &&& lines[0] == render::leak_text(p, f)
            &&& f.owner matches Some(s) ==> lines[1] == "      owner:    "@ + s@
            &&& lines[1 + known(f.owner is Some)] == "      path:     "@ + f.path@
            &&& lines.last() == "      reclaim:  "@ + f.safe_delete@
            &&& f.root_cause matches Some(s) ==> lines[2 + known(f.owner is Some) + known(
                f.file_matches is Some,
            )] == "      cause:    "@ + s@
            &&& f.prevention matches Some(s) ==> lines[lines.len() - 2] == "      prevent:  "@ + s@
            &&& f.file_matches matches Some(n) ==> lines[2 + known(f.owner is Some)]
                == "      matches:  "@ + text::decimal(n as nat) + " files"@
        }),
{
}

/// The lines of an anomaly say its name, its zone and its size; app data its severity and path.
pub proof fn anomalies_are_told(p: Palette, a: Anomaly)
    ensures
        a.kind is Cache ==> {
            &&& render::app_data_block(p, a).len() == 0
            &&& render::cache_block(p, a).len() == 1
            &&& says(render::cache_block(p, a)[0], a.name@)
            &&& says(render::cache_block(p, a)[0], a.zone@)
            &&& says(render::cache_block(p, a)[0], report::human_text(a.bytes as nat))
        },
        a.kind is AppData ==> {
            &&& render::cache_block(p, a).len() == 0
            &&& render::app_data_block(p, a).len() == 2
            &&& says(render::app_data_block(p, a)[0], a.name@)
            &&& says(render::app_data_block(p, a)[0], a.zone@)
            &&& says(render::app_data_block(p, a)[0], report::human_text(a.bytes as nat))
            &&& a.severity is Critical ==> says(render::app_data_block(p, a)[0], "CRIT"@)
            &&& a.severity is Warn ==> says(render::app_data_block(p, a)[0], "WARN"@)
            &&& a.severity is Info ==> says(render::app_data_block(p, a)[0], "INFO"@)
            &&& says(render::app_data_block(p, a)[1], a.path@)
        },
{
    broadcast use lemma_says, lemma_says_aligned;

    if a.kind is Cache {
        assert(render::cache_block(p, a)[0] == render::cache_text(p, a));
    } else {
        assert(render::app_data_block(p, a)[0] == render::app_data_text(p, a));
        assert(render::app_data_block(p, a)[1] == render::app_data_path_text(p, a));
    }
}

/// The line of a child, and of a node of the tree, says its name and its size.
pub proof fn children_are_told(p: Palette, c: ChildSize, t: TreeNode, pad: Seq<char>)
    ensures
        says(render::child_text(p, c), c.name@),
        says(render::child_text(p, c), report::human_text(c.bytes as nat)),
        says(render::node_text(t, pad), t.name@),
        says(render::node_text(t, pad), report::human_text(t.bytes as nat)),
{
    broadcast use lemma_says, lemma_says_aligned;

}

/// Every item of a list has its line.
pub proof fn every_item_has_its_line(
    p: Palette,
    files: Seq<LargeFile>,
    left: Seq<Leftover>,
    gone: Seq<UninstallOutcome>,
    done: Seq<ReclaimOutcome>,
    targets: Seq<ReclaimTarget>,
    buckets: Seq<Bucket>,
    children: Seq<ChildSize>,
    i: int,
)
    ensures
        render::large_lines(p, files).len() == files.len(),
        0 <= i < files.len() ==> render::large_lines(p, files)[i] == render::large_text(p, files[i]),
        render::leftover_lines(p, left).len() == left.len(),
        0 <= i < left.len() ==> render::leftover_lines(p, left)[i] == render::leftover_text(
            p,
            left[i],
        ),
        render::removed_lines(p, gone).len() == gone.len(),
        0 <= i < gone.len() ==> render::removed_lines(p, gone)[i] == render::removed_text(
            p,
            gone[i],
        ),
        render::reclaimed_lines(p, done).len() == done.len(),
        0 <= i < done.len() ==> render::reclaimed_lines(p, done)[i] == render::reclaimed_text(
            p,
            done[i],
        ),
        render::auto_lines(p, targets).len() == targets.len(),
        0 <= i < targets.len() ==> render::auto_lines(p, targets)[i] == render::auto_text(
            p,
            targets[i],
        ),
        render::manual_lines(p, targets).len() == targets.len(),
        0 <= i < targets.len() ==> render::manual_lines(p, targets)[i] == render::manual_text(
            p,
            targets[i],
        ),
        render::bucket_lines(p, buckets).len() == buckets.len(),
        0 <= i < buckets.len() ==> render::bucket_lines(p, buckets)[i] == render::bucket_text(
            p,
            buckets[i],
        ),
        render::child_lines(p, children).len() == children.len(),
        0 <= i < children.len() ==> render::child_lines(p, children)[i] == render::child_text(
            p,
            children[i],
        ),
{
}

/// Every group, finding and anomaly has its lines.
pub proof fn every_item_has_its_lines(
    p: Palette,
    groups: Seq<DuplicateGroup>,
    g: DuplicateGroup,
    findings: Seq<Finding>,
    f: Finding,
    anomalies: Seq<Anomaly>,
    a: Anomaly,
)
    ensures
        render::dupe_blocks(p, Seq::empty()).len() == 0,
        render::dupe_blocks(p, groups.push(g)) == render::dupe_blocks(p, groups)
            + render::dupe_block(p, g),
        render::leak_blocks(p, Seq::empty()).len() == 0,
        render::leak_blocks(p, findings.push(f)) == render::leak_blocks(p, findings)
            + render::leak_block(p, f),
        render::app_data_blocks(p, Seq::empty()).len() == 0,
        render::app_data_blocks(p, anomalies.push(a)) == render::app_data_blocks(p, anomalies)
            + render::app_data_block(p, a),
        render::cache_blocks(p, Seq::empty()).len() == 0,
        render::cache_blocks(p, anomalies.push(a)) == render::cache_blocks(p, anomalies)
            + render::cache_block(p, a),
{
    assert(groups.push(g).drop_last() =~= groups);
    assert(findings.push(f).drop_last() =~= findings);
    assert(anomalies.push(a).drop_last() =~= anomalies);
}

/// The totals of the reports: what duplicates waste, what was trashed, what caches hold, what
/// is safe to reclaim, and how many findings are critical.
pub proof fn totals_are_of_what_counts(
    groups: Seq<DuplicateGroup>,
    g: DuplicateGroup,
    gone: Seq<UninstallOutcome>,
    o: UninstallOutcome,
    anomalies: Seq<Anomaly>,
    a: Anomaly,
    buckets: Seq<Bucket>,
    b: Bucket,
    findings: Seq<Finding>,
    f: Finding,
)
    ensures
        order::sum(groups.push(g), render::waste()) == order::sum(groups, render::waste())
            + g.wasted,
        order::sum(gone.push(o), render::trashed_bytes()) == order::sum(
            gone,
            render::trashed_bytes(),
        ) + (if o.ok {
            o.bytes as int
        } else {
            0
        }),
        order::sum(anomalies.push(a), render::cache_bytes()) == order::sum(
            anomalies,
            render::cache_bytes(),
        ) + (if a.kind is Cache {
            a.bytes as int
        } else {
            0
        }),
        order::sum(buckets.push(b), render::safe_weight()) == order::sum(
            buckets,
            render::safe_weight(),
        ) + (if b.safe_auto {
            b.bytes as int
        } else {
            0
        }),
        order::sum(findings.push(f), render::critical_one()) == order::sum(
            findings,
            render::critical_one(),
        ) + (if f.severity is Critical {
            1int
        } else {
            0
        }),
{
    order::lemma_sum_push(groups, g, render::waste());
    order::lemma_sum_push(gone, o, render::trashed_bytes());
    order::lemma_sum_push(anomalies, a, render::cache_bytes());
    order::lemma_sum_push(buckets, b, render::safe_weight());
    order::lemma_sum_push(findings, f, render::critical_one());
}

/// How full a volume is, in percent, is rounded down; a volume without capacity is not full.
pub proof fn fullness_is_rounded_down(d: DiskSpace)
    requires
        d.used * 100 <= u64::MAX,
    ensures
        d.total == 0 ==> render::used_percent(d) == 0,
        d.total > 0 ==> {
            &&& render::used_percent(d) * d.total <= 100 * d.used
            &&& 100 * d.used < (render::used_percent(d) + 1) * d.total
        },
{
    if d.total > 0 {
        let n = d.used * 100;
        let w = d.total as int;
        vstd::arithmetic::div_mod::lemma_fundamental_div_mod(n, w);
        vstd::arithmetic::div_mod::lemma_mod_bound(n, w);
        let q = n / w;
        assert(0 <= q <= n) by {
            vstd::arithmetic::div_mod::lemma_div_pos_is_pos(n, w);
            vstd::arithmetic::div_mod::lemma_div_is_ordered_by_denominator(n, 1, w);
        }
        assert(q * w == w * q) by (nonlinear_arith);
        assert((q + 1) * w == w * q + w) by (nonlinear_arith);
    }
}

/// What is to be reviewed is what is reclaimable and not safe.
pub proof fn the_rest_is_to_be_reviewed(all: u64, part: u64)
    ensures
        part <= all ==> render::without(all, part) + part == all,
        part > all ==> render::without(all, part) == 0,
{
}

/// The tree shows nodes from one percent of the total on, and at least 50 MB.
pub proof fn the_tree_shows_what_is_large(total: u64)
    ensures
        render::tree_threshold(total) >= 52_428_800,
        render::tree_threshold(total) >= total / 100,
        render::tree_threshold(total) == 52_428_800 || render::tree_threshold(total) == total / 100,
{
}

/// Of the nodes of a level the first twelve that are large enough are shown, each with all that
/// is shown below it, and how many more there are is said.
pub proof fn the_largest_nodes_are_shown(
    p: Palette,
    ts: Seq<TreeNode>,
    t: TreeNode,
    pad: Seq<char>,
    threshold: u64,
)
    ensures
        render::forest_lines(p, Seq::empty(), pad, threshold).len() == 0,
        t.bytes >= threshold && order::sum(ts, render::shown_one(threshold)) < 12
            ==> render::forest_lines(p, ts.push(t), pad, threshold) == render::forest_lines(
            p,
            ts,
            pad,
            threshold,
        ) + render::tree_lines(p, t, pad, threshold),
        t.bytes < threshold || order::sum(ts, render::shown_one(threshold)) >= 12
            ==> render::forest_lines(p, ts.push(t), pad, threshold) == render::forest_lines(
            p,
            ts,
            pad,
            threshold,
        ),
        order::sum(ts.push(t), render::shown_one(threshold)) == order::sum(
            ts,
            render::shown_one(threshold),
        ) + (if t.bytes >= threshold {
            1int
        } else {
            0
        }),
        ({
            let lines = render::tree_lines(p, t, pad, threshold);
            let below = render::forest_lines(p, t.children@, pad + "  "@, threshold);
            let large = order::sum(t.children@, render::shown_one(threshold));
            &&& lines[0] == render::node_text(t, pad)
            &&& lines.subrange(1, (1 + below.len()) as int) == below
            &&& lines.len() == 1 + below.len() + (if large > 12 {
                1int
            } else {
                0
            })
        }),
{
    assert(ts.push(t).drop_last() =~= ts);
    order::lemma_sum_push(ts, t, render::shown_one(threshold));
    let lines = render::tree_lines(p, t, pad, threshold);
    let below = render::forest_lines(p, t.children@, pad + "  "@, threshold);
    assert(lines.subrange(1, (1 + below.len()) as int) =~= below);
}

/// The report on a plan lists every target that is safe and every one to be reviewed, and
/// hints at applying it only where it is asked to and something is safe.
pub proof fn plans_are_told_in_full(p: Palette, plan: ReclaimPlan, hint: bool)
    ensures
        ({
            let lines = render::plan_report(p, plan, hint);
            let safe = plan.auto_targets@;
            let rest = plan.manual_targets@;
            &&& lines.len() == 2 + safe.len() + (if rest.len() > 0 {
                1 + rest.len()
            } else {
                0
            }) + (if hint && safe.len() > 0 {
                1int
            } else {
                0
            })
            &&& forall|i: int|
                0 <= i < safe.len() ==> lines[2 + i] == #[trigger] render::auto_lines(p, safe)[i]
            &&& forall|i: int|
                0 <= i < rest.len() ==> lines[3 + safe.len() + i] == #[trigger] render::manual_lines(
                    p,
                    rest,
                )[i]
        }),
{
}

/// The report on an uninstall lists every leftover, and ends with the total.
pub proof fn uninstalls_are_told_in_full(p: Palette, plan: UninstallPlan)
    ensures
        ({
            let lines = render::uninstall_report(p, plan);
            let first: int = if plan.bundle_id is Some { 3 } else { 2 };
            let left = plan.leftovers@;
            &&& lines.len() == first + (if left.len() > 0 {
                left.len() as int
            } else {
                1
            }) + 1
            &&& forall|i: int|
                0 <= i < left.len() ==> lines[first + i] == #[trigger] render::leftover_lines(
                    p,
                    left,
                )[i]
            &&& plan.app_path matches Some(at) ==> says(lines[first - 1], at@) && says(
                lines[first - 1],
                report::human_text(plan.app_bytes as nat),
            )
            &&& plan.bundle_id matches Some(id) ==> says(lines[1], id@)
            &&& says(lines[0], plan.app_name@)
            &&& says(lines.last(), report::human_text(plan.total_bytes as nat))
        }),
{
    broadcast use lemma_says, lemma_says_aligned;

    let lines = render::uninstall_report(p, plan);
    let first: int = if plan.bundle_id is Some { 3 } else { 2 };
    assert(lines[0] == render::uninstall_head_text(p, plan.app_name@));
    assert(lines.last() == render::uninstall_total_text(p, plan.total_bytes));
    if let Some(id) = plan.bundle_id {
        assert(lines[1] == render::bundle_id_text(p, id@));
    }
    if let Some(at) = plan.app_path {
        assert(lines[first - 1] == render::app_text(p, plan.app_bytes, at@));
    }
}

/// The report on duplicates says what all of them waste, lists the first `top` groups, and says
/// how many more there are.
pub proof fn duplicates_are_told_in_full(p: Palette, groups: Seq<DuplicateGroup>, top: nat)
    requires
        groups.len() <= usize::MAX,
        order::sum(groups, render::waste()) <= u64::MAX,
    ensures
        ({
            let lines = render::dupes_report(p, groups, top);
            let n = if groups.len() > top { top } else { groups.len() };
            let blocks = render::dupe_blocks(p, groups.take(n as int));
            &&& says(lines[0], report::human_text(order::sum(groups, render::waste())))
            &&& says(lines[0], text::decimal(groups.len()))
            &&& groups.len() > 0 ==> lines.subrange(1, (1 + blocks.len()) as int) == blocks
            &&& groups.len() > top ==> says(lines.last(), text::decimal((groups.len() - top) as nat))
            &&& 0 < groups.len() <= top ==> lines.len() == 1 + blocks.len()
        }),
{
    broadcast use lemma_says;

    let lines = render::dupes_report(p, groups, top);
    let n = if groups.len() > top { top } else { groups.len() };
    let blocks = render::dupe_blocks(p, groups.take(n as int));
    let wasted = order::sum(groups, render::waste());
    assert(lines[0] == render::dupes_head_text(p, wasted as u64, groups.len() as usize));
    assert(groups.take(groups.len() as int) =~= groups);
    if groups.len() > 0 {
        assert(lines.subrange(1, (1 + blocks.len()) as int) =~= blocks);
    }
    if groups.len() > top {
        assert(lines.last() == render::dupes_more_text(p, (groups.len() - top) as usize));
    }
}

/// The report on what was removed lists every outcome and ends with the bytes of those that
/// went.
pub proof fn outcomes_are_told_in_full(p: Palette, gone: Seq<UninstallOutcome>)
    requires
        order::sum(gone, render::trashed_bytes()) <= u64::MAX,
    ensures
        ({
            let lines = render::removed_report(p, gone);
            &&& lines.len() == gone.len() + 1
            &&& forall|i: int|
                0 <= i < gone.len() ==> lines[i] == #[trigger] render::removed_lines(p, gone)[i]
            &&& says(lines.last(), report::human_text(order::sum(gone, render::trashed_bytes())))
        }),
{
    broadcast use lemma_says;

    let bytes = order::sum(gone, render::trashed_bytes());
    assert(render::removed_report(p, gone).last() == render::moved_text(p, bytes as u64));
}

/// The report of a scan holds the lines on where the space is, every bucket and every finding.
pub proof fn scans_are_told_in_full(p: Palette, rep: ScanReport)
    ensures
        ({
            let lines = render::scan_report(p, rep);
            let top: int = if rep.disk is Some { 3 } else { 2 };
            let place = render::scan_where(p, rep).len() as int;
            let buckets = rep.buckets@;
            let listed: int = if buckets.len() > 0 { 1 + buckets.len() as int } else { 0 };
            let leaks = render::leak_blocks(p, rep.findings@);
            &&& says(lines[0], rep.root@)
            &&& forall|i: int|
                0 <= i < buckets.len() ==> lines[top + place + 1 + i]
                    == #[trigger] render::bucket_lines(p, buckets)[i]
            &&& rep.findings@.len() > 0 ==> lines.len() == top + place + listed + 1 + leaks.len()
                && lines.skip(top + place + listed + 1) == leaks
            &&& rep.tree is None && rep.children@.len() > 0 ==> place == 1 + rep.children@.len()
                && forall|i: int|
                0 <= i < rep.children@.len() ==> lines[top + 1 + i] == #[trigger] render::child_lines(
                    p,
                    rep.children@,
                )[i]
            &&& rep.disk matches Some(d) ==> says(lines[2], report::human_text(d.used as nat))
                && says(lines[2], report::human_text(d.total as nat)) && says(
                lines[2],
                report::human_text(d.free as nat),
            )
        }),
{
    broadcast use lemma_says;

    let lines = render::scan_report(p, rep);
    let top: int = if rep.disk is Some { 3 } else { 2 };
    let place = render::scan_where(p, rep).len() as int;
    let buckets = rep.buckets@;
    let listed: int = if buckets.len() > 0 { 1 + buckets.len() as int } else { 0 };
    let leaks = render::leak_blocks(p, rep.findings@);
    assert(lines[0] == render::scan_head_text(p, rep.root@));
    if let Some(d) = rep.disk {
        assert(lines[2] == render::disk_text(p, d, render::used_percent(d)));
    }
    if rep.findings@.len() > 0 {
        assert(lines.skip(top + place + listed + 1) =~= leaks);
    }
}

/// The report on a volume says its capacity, what is used and free, and every snapshot.
pub proof fn volumes_are_told_in_full(p: Palette, root: Seq<char>, rep: SpaceReport)
    ensures
        ({
            let lines = render::space_lines(p, root, rep);
            let first: int = if rep.disk is Some { 4 } else { 2 };
            &&& says(lines[0], root)
            &&& rep.disk matches Some(d) ==> {
                &&& says(lines[1], report::human_text(d.total as nat))
                &&& says(lines[2], report::human_text(d.used as nat))
                &&& says(lines[2], text::decimal(render::used_percent(d) as nat))
                &&& says(lines[3], report::human_text(d.free as nat))
            }
            &&& forall|i: int|
                0 <= i < rep.snapshots@.len() ==> lines[first + 2 + i]
                    == #[trigger] render::snapshot_lines(p, rep.snapshots@)[i]
            &&& rep.snapshots@.len() > 0 && rep.reclaim_snapshots is Some ==> says(
                lines[first + 2 + rep.snapshots@.len()],
                rep.reclaim_snapshots.unwrap()@,
            )
        }),
{
    broadcast use lemma_says, lemma_says_aligned;

    let lines = render::space_lines(p, root, rep);
    assert(lines[0] == render::space_head_text(p, root));
    if let Some(d) = rep.disk {
        assert(lines[1] == render::capacity_text(d));
        assert(lines[2] == render::used_text(p, d, render::used_percent(d)));
        assert(lines[3] == render::free_text(p, d));
    }
    let first: int = if rep.disk is Some { 4 } else { 2 };
    if rep.snapshots@.len() > 0 && rep.reclaim_snapshots is Some {
        assert(lines[first + 2 + rep.snapshots@.len()] == render::thin_text(
            rep.reclaim_snapshots.unwrap()@,
        ));
    }
}

} // verus!
