//! What the commands list, and when they delete.

use vstd::prelude::*;

use crate::cli;
use crate::cli::{ActView, Output, Request};
use crate::engine::{ReclaimPlan, ReclaimTarget};
use crate::render::Palette;
use crate::report;
use crate::report::{DuplicateGroup, LargeFile, Severity, UninstallPlan};
use crate::space;
use crate::text;
use crate::tui::widget::MetaView;

verus! {

/// A filter keeps exactly the targets whose name holds one of the texts, all in lower case, as
/// they were and in order.
pub proof fn filters_keep_the_named(
    targets: Seq<ReclaimTarget>,
    t: ReclaimTarget,
    patterns: Seq<Seq<char>>,
)
    ensures
        cli::matching_targets(Seq::empty(), patterns).len() == 0,
        (exists|i: int|
            0 <= i < patterns.len() && text::occurs(
                text::lowercase(t.name@),
                text::lowercase(#[trigger] patterns[i]),
            )) ==> cli::matching_targets(targets.push(t), patterns) == cli::matching_targets(
            targets,
            patterns,
        ).push(t),
        (forall|i: int|
            0 <= i < patterns.len() ==> !text::occurs(
                text::lowercase(t.name@),
                text::lowercase(#[trigger] patterns[i]),
            )) ==> cli::matching_targets(targets.push(t), patterns) == cli::matching_targets(
            targets,
            patterns,
        ),
{
    assert(targets.push(t).drop_last() =~= targets);
    let low = cli::lowered(patterns);
    let name = text::lowercase(t.name@);
    if exists|i: int|
        0 <= i < patterns.len() && text::occurs(name, text::lowercase(#[trigger] patterns[i])) {
        let i = choose|i: int|
            0 <= i < patterns.len() && text::occurs(name, text::lowercase(#[trigger] patterns[i]));
        assert(text::occurs(name, low[i]));
    } else {
        assert forall|i: int| 0 <= i < low.len() implies !text::occurs(name, #[trigger] low[i]) by {
            assert(low[i] == text::lowercase(patterns[i]));
        }
    }
}

/// The files that are listed are the first `top` that were not modified for so many days, all
/// where no age is asked for; a file whose age is not known is not old.
pub proof fn the_first_old_files_are_listed(
    files: Seq<LargeFile>,
    f: LargeFile,
    older: Option<u64>,
    top: nat,
)
    ensures
        cli::picked_files(Seq::empty(), older, top).len() == 0,
        cli::picked_files(files, older, top).len() <= top,
        ({
            let before = cli::picked_files(files, older, top);
            let now = cli::picked_files(files.push(f), older, top);
            let wanted = older is None || (f.modified_days is Some && f.modified_days.unwrap()
                >= older.unwrap());
            if wanted && before.len() < top {
                now == before.push(f)
            } else {
                now == before
            }
        }),
{
    assert(files.push(f).drop_last() =~= files);
    let kept = cli::old_files(files, older);
    let more = cli::old_files(files.push(f), older);
    if kept.len() >= top {
        assert(more.take(top as int) =~= kept.take(top as int));
        assert(kept.take(kept.len() as int) =~= kept);
    }
}

/// Of the groups of duplicates the first `top` are listed.
pub proof fn the_first_groups_are_listed(groups: Seq<DuplicateGroup>, top: nat)
    ensures
        cli::first_groups(groups, top).len() <= top,
        groups.len() <= top ==> cli::first_groups(groups, top) == groups,
        groups.len() > top ==> cli::first_groups(groups, top).len() == top,
        cli::first_groups(groups, top).is_prefix_of(groups),
{
}

/// Every copy of every group has a row: with its path and bytes, not selected, in a set with
/// exactly the other copies of its group.
pub proof fn every_copy_has_a_row(groups: Seq<DuplicateGroup>, g: DuplicateGroup, k: int)
    requires
        0 <= k < g.paths@.len(),
        groups.len() < usize::MAX,
    ensures
        cli::dupe_row_views(Seq::empty()).len() == 0,
        ({
            let before = cli::dupe_row_views(groups);
            let now = cli::dupe_row_views(groups.push(g));
            let row = now[before.len() + k];
            &&& now.len() == before.len() + g.paths@.len()
            &&& now.take(before.len() as int) == before
            &&& row.path == g.paths@[k]@
            &&& row.label == g.paths@[k]@
            &&& row.bytes == g.bytes
            &&& !row.selected
            &&& row.group matches Some(id) && id == groups.len()
        }),
{
    assert(groups.push(g).drop_last() =~= groups);
    let before = cli::dupe_row_views(groups);
    let now = cli::dupe_row_views(groups.push(g));
    assert(now.take(before.len() as int) =~= before);
}

/// An uninstall lists the bundle, where there is one, and every leftover, all of them selected,
/// each with its path and bytes; how sure a leftover is, is said.
pub proof fn an_uninstall_lists_what_it_removes(plan: UninstallPlan, i: int)
    requires
        0 <= i < plan.leftovers@.len(),
    ensures
        ({
            let rows = cli::uninstall_row_views(plan);
            let first: int = if plan.app_path is Some { 1 } else { 0 };
            let row = rows[first + i];
            let l = plan.leftovers@[i];
            &&& rows.len() == first + plan.leftovers@.len()
            &&& plan.app_path matches Some(at) ==> {
                &&& rows[0].path == at@
                &&& rows[0].label == at@
                &&& rows[0].bytes == plan.app_bytes
                &&& rows[0].selected
                &&& rows[0].group is None
            }
            &&& row.path == l.path@
            &&& row.label == l.path@
            &&& row.bytes == l.bytes
            &&& row.selected
            &&& row.group is None
            &&& l.confidence is High ==> row.meta == MetaView::Confidence("high"@)
            &&& l.confidence is Medium ==> row.meta == MetaView::Confidence("med?"@)
        }),
{
}

/// The rows of reclaim targets have their names, paths and bytes, and none is selected.
pub proof fn targets_are_listed_unselected(ts: Seq<ReclaimTarget>, tag: Seq<char>, i: int)
    requires
        0 <= i < ts.len(),
    ensures
        cli::target_rows(ts, tag).len() == ts.len(),
        cli::target_rows(ts, tag)[i].path == ts[i].path@,
        cli::target_rows(ts, tag)[i].label == ts[i].name@,
        cli::target_rows(ts, tag)[i].bytes == ts[i].bytes,
        !cli::target_rows(ts, tag)[i].selected,
        cli::target_rows(ts, tag)[i].group is None,
        cli::target_rows(ts, tag)[i].meta == MetaView::Tag(tag),
{
}

/// The row of a large file has its path, bytes and age, and is not selected.
pub proof fn large_files_are_listed_unselected(f: LargeFile)
    ensures
        cli::large_row(f).path == f.path@,
        cli::large_row(f).label == f.path@,
        cli::large_row(f).bytes == f.bytes,
        cli::large_row(f).meta == MetaView::Age(f.modified_days),
        !cli::large_row(f).selected,
        cli::large_row(f).group is None,
{
}

/// A yes is one of three words, with any white space around it.
pub proof fn only_three_words_say_yes(answer: Seq<char>)
    ensures
        cli::says_yes(answer) <==> {
            ||| text::trimmed(answer) == seq!['y']
            ||| text::trimmed(answer) == seq!['Y']
            ||| text::trimmed(answer) == seq!['y', 'e', 's']
        },
{
    reveal_strlit("y");
    reveal_strlit("Y");
    reveal_strlit("yes");
    assert("y"@ =~= seq!['y']);
    assert("Y"@ =~= seq!['Y']);
    assert("yes"@ =~= seq!['y', 'e', 's']);
}

/// What a command that can delete does, by what it was told: each step comes exactly where it
/// should.
pub proof fn steps_follow_the_request(q: Request, browse_empty: bool, delete_empty: bool)
    ensures
        ({
            let s = cli::step_for(q, browse_empty, delete_empty);
            let watched = q.output_terminal && !q.json && !q.plain;
            &&& s is Go <==> q.apply && !delete_empty && q.yes
            &&& s is Ask <==> q.apply && !delete_empty && !q.yes && q.input_terminal
            &&& s is Refuse <==> q.apply && !delete_empty && !q.yes && !q.input_terminal
            &&& s is Nothing <==> q.apply && delete_empty
            &&& s is Interactive <==> !q.apply && watched && !browse_empty
            &&& s is Json <==> !q.apply && q.json
            &&& s is DryRun <==> !q.apply && !q.json && (!watched || browse_empty)
        }),
{
}

/// Something is deleted only where that was asked for and agreed to, by flag or by an answer at
/// a terminal.
pub proof fn deletion_is_agreed_to(q: Request, delete_empty: bool, answer: Option<Seq<char>>)
    ensures
        cli::goes_on(q, delete_empty, answer) ==> q.apply && !delete_empty,
        cli::goes_on(q, delete_empty, answer) && !q.yes ==> q.input_terminal && answer is Some
            && cli::says_yes(answer.unwrap()),
        q.apply && !delete_empty && q.yes ==> cli::goes_on(q, delete_empty, answer),
        q.apply && !delete_empty && q.input_terminal && answer is Some && cli::says_yes(
            answer.unwrap(),
        ) ==> cli::goes_on(q, delete_empty, answer),
        cli::is_aborted(q, delete_empty, answer) <==> q.apply && !delete_empty && !q.yes
            && q.input_terminal && !(answer is Some && cli::says_yes(answer.unwrap())),
{
}

/// How a result is shown: for machines wherever that was asked for, to browse only on a
/// terminal where neither that nor plain output was asked for and there is something.
pub proof fn output_follows_the_request(json: bool, plain: bool, terminal: bool, empty: bool)
    ensures
        cli::output_for(json, plain, terminal, empty) is Json <==> json,
        cli::output_for(json, plain, terminal, empty) is Interactive <==> !json && !plain
            && terminal && !empty,
        cli::is_interactive(json, plain, terminal) <==> !json && !plain && terminal,
{
}

/// The exit code of a list of severities: two where one is critical, one where the worst is a
/// warning, else zero.
pub proof fn the_exit_code_is_the_worst(list: Seq<Severity>)
    ensures
        cli::exit_code(report::highest(list)) == 2 <==> list.contains(Severity::Critical),
        cli::exit_code(report::highest(list)) == 1 <==> list.contains(Severity::Warn)
            && !list.contains(Severity::Critical),
        cli::exit_code(report::highest(list)) == 0 <==> !list.contains(Severity::Warn)
            && !list.contains(Severity::Critical),
{
    crate::laws::leaks::the_worst_counts(list);
}

/// The severities that count for the exit code are those of all that was found.
pub proof fn every_severity_counts(
    anomalies: Seq<crate::anomaly::Anomaly>,
    findings: Seq<report::Finding>,
)
    ensures
        cli::anomaly_severities(anomalies).len() == anomalies.len(),
        forall|i: int|
            0 <= i < anomalies.len() ==> #[trigger] cli::anomaly_severities(anomalies)[i]
                == anomalies[i].severity,
        cli::finding_severities(findings).len() == findings.len(),
        forall|i: int|
            0 <= i < findings.len() ==> #[trigger] cli::finding_severities(findings)[i]
                == findings[i].severity,
{
}

/// An uninstall that removes nothing has neither a bundle nor a leftover.
pub proof fn nothing_to_remove_is_nothing(plan: UninstallPlan)
    ensures
        cli::removes_nothing(plan) <==> plan.app_path is None && plan.leftovers@ == Seq::<
            report::Leftover,
        >::empty(),
{
    if plan.leftovers@.len() == 0 {
        assert(plan.leftovers@ =~= Seq::<report::Leftover>::empty());
    }
}

/// What a command for reclaiming comes to: it goes on, asks, refuses, browses or writes for
/// machines exactly as its step says, it browses all targets, and it prints nothing for people
/// where machines read.
pub proof fn reclaiming_follows_its_step(p: Palette, plan: ReclaimPlan, q: Request)
    ensures
        ({
            let none = plan.auto_targets@.len() == 0;
            let empty = none && plan.manual_targets@.len() == 0;
            let s = cli::step_for(q, empty, none);
            let (said, act) = cli::clean_outcome(p, plan, q);
            &&& act is Go <==> s is Go
            &&& act is Ask <==> s is Ask
            &&& act is Fail <==> s is Refuse
            &&& act is Browse <==> s is Interactive
            &&& act is Json <==> s is Json
            &&& q.json ==> said.len() == 0
            &&& act matches ActView::Browse(rows, _) ==> rows.len() == plan.auto_targets@.len()
                + plan.manual_targets@.len()
        }),
{
}

/// What a command for uninstalling comes to: it fails where there is no app, and else goes on,
/// asks, refuses, browses or writes for machines exactly as its step says.
pub proof fn uninstalling_follows_its_step(p: Palette, plan: UninstallPlan, q: Request)
    ensures
        cli::uninstall_outcome(p, None, q).1 is Fail,
        cli::uninstall_outcome(p, None, q).0.len() == 0,
        ({
            let s = cli::step_for(q, false, cli::removes_nothing(plan));
            let (said, act) = cli::uninstall_outcome(p, Some(plan), q);
            &&& act is Go <==> s is Go
            &&& act is Ask <==> s is Ask
            &&& act is Fail <==> s is Refuse
            &&& act is Browse <==> s is Interactive
            &&& act is Json <==> s is Json
            &&& q.json ==> said.len() == 0
            &&& act matches ActView::Browse(rows, _) ==> rows == cli::uninstall_row_views(plan)
        }),
{
}

/// What a list of files comes to, by how it is shown.
pub proof fn lists_are_shown_as_asked(
    p: Palette,
    files: Seq<LargeFile>,
    older: Option<u64>,
    groups: Seq<DuplicateGroup>,
    top: nat,
    how: Output,
)
    ensures
        how is Json ==> cli::large_outcome(p, files, older, how).1 is Json
            && cli::large_outcome(p, files, older, how).0.len() == 0,
        how is Interactive ==> (cli::large_outcome(p, files, older, how).1 matches ActView::Browse(
            rows,
            _,
        ) && rows.len() == files.len() && forall|i: int|
            0 <= i < rows.len() ==> #[trigger] rows[i] == cli::large_row(files[i])),
        how is Plain ==> cli::large_outcome(p, files, older, how).1 is Done,
        how is Json ==> cli::dupes_outcome(p, groups, top, how).1 is Json
            && cli::dupes_outcome(p, groups, top, how).0.len() == 0,
        how is Interactive ==> (cli::dupes_outcome(p, groups, top, how).1 matches ActView::Browse(
            rows,
            _,
        ) && rows == cli::dupe_row_views(cli::first_groups(groups, top))),
        how is Plain ==> cli::dupes_outcome(p, groups, top, how).1 is Done,
{
}

/// The snapshots are the lines, without the white space around them, that begin with the
/// system's prefix, in order.
pub proof fn snapshots_are_the_lines_of_the_system(lines: Seq<Seq<char>>, line: Seq<char>)
    ensures
        space::snapshot_names(Seq::empty()).len() == 0,
        "com.apple"@.is_prefix_of(text::trimmed(line)) ==> space::snapshot_names(lines.push(line))
            == space::snapshot_names(lines).push(text::trimmed(line)),
        !"com.apple"@.is_prefix_of(text::trimmed(line)) ==> space::snapshot_names(
            lines.push(line),
        ) == space::snapshot_names(lines),
{
    assert(lines.push(line).drop_last() =~= lines);
    let t = text::trimmed(line);
    let p = "com.apple"@;
    if p.is_prefix_of(t) {
        assert(t.take(p.len() as int) =~= p);
    }
    if text::begins(t, p) {
        assert(p =~= t.take(p.len() as int));
        assert(p.is_prefix_of(t));
    }
}

/// A directory that was asked for is searched from 100 MB on, and a size tree has six levels
/// at most.
pub proof fn what_was_asked_for_has_limits()
    ensures
        cli::CUSTOM_FLOOR == 100 * 1_048_576,
        cli::MAX_DEPTH == 6,
{
}

} // verus!
