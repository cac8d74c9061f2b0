//! The decisions of the command line: what to show, what to ask, and what to do.

use vstd::prelude::*;

use crate::anomaly;
use crate::anomaly::{analyze_container, sort_anomalies, Anomaly};
use crate::engine;
use crate::engine::{execute_reclaim_with, ReclaimPlan, ReclaimResult, ReclaimTarget};
use crate::order;
use crate::render;
use crate::render::{
    nothing_safe, reclaim_question, render_anomalies, render_dupes, render_large, render_plan,
    render_reclaimed, render_removed, render_scan, render_space, render_uninstall, uninstall_hint,
    uninstall_question, Palette,
};
use crate::report;
use crate::report::{
    human, DuplicateGroup, LargeFile, ScanReport, Severity, SpaceReport, UninstallOutcome,
    UninstallPlan,
};
use crate::scan;
use crate::scan::Entry;
use crate::text;
use crate::text::{contains_text, decimal_text, same_text, trim_text, Page};
use crate::tui::tree;
use crate::tui::tree::spinner_frame;
use crate::tui::widget;
use crate::tui::widget::{MetaView, Row, RowMeta, RowView};
use crate::uninstall;
use crate::uninstall::execute_uninstall;

verus! {

/// Deepest level of the size tree.
pub const MAX_DEPTH: usize = 6;

/// Floor below which a child of a directory that was asked for is never flagged: 100 MB.
pub const CUSTOM_FLOOR: u64 = 0x640_0000;

/// The home directory, or the root where it is not known.
pub fn home(known: Option<String>) -> (r: String)
    ensures
        r@ == (match known {
            Some(h) => h@,
            None => "/"@,
        }),
{
    match known {
        Some(h) => h,
        None => "/".to_owned(),
    }
}

/// Colours are used only on a terminal, and only where nobody turned them off.
pub fn colour_enabled(terminal: bool, no_colour: bool) -> (r: bool)
    ensures
        r == (terminal && !no_colour),
{
    terminal && !no_colour
}

/// Whether the interactive view is shown: only on a terminal, and only where neither machine
/// nor plain output was asked for.
pub open spec fn is_interactive(json: bool, plain: bool, terminal: bool) -> bool {
    !json && !plain && terminal
}

/// Whether the interactive view is shown.
pub fn interactive(json: bool, plain: bool, terminal: bool) -> (r: bool)
    ensures
        r == is_interactive(json, plain, terminal),
{
    !json && !plain && terminal
}

/// How a result is shown.
#[derive(Debug, Clone, Copy, PartialEq, Eq, Structural)]
pub enum Output {
    Interactive,
    Json,
    Plain,
}

/// How a result is shown: nothing is browsed where there is nothing.
pub open spec fn output_for(json: bool, plain: bool, terminal: bool, empty: bool) -> Output {
    if is_interactive(json, plain, terminal) && !empty {
        Output::Interactive
    } else if json {
        Output::Json
    } else {
        Output::Plain
    }
}

/// How a result is shown.
pub fn output(json: bool, plain: bool, terminal: bool, empty: bool) -> (r: Output)
    ensures
        r == output_for(json, plain, terminal, empty),
{
    if interactive(json, plain, terminal) && !empty {
        Output::Interactive
    } else if json {
        Output::Json
    } else {
        Output::Plain
    }
}

/// The exit code for the highest severity: 2 critical, 1 warning, 0 otherwise.
pub open spec fn exit_code(max: Option<Severity>) -> u8 {
    match max {
        Some(Severity::Critical) => 2,
        Some(Severity::Warn) => 1,
        _ => 0,
    }
}

/// The exit code for the highest severity: 2 critical, 1 warning, 0 otherwise (clean, or
/// info-only).
pub fn exit_code_for(max: Option<Severity>) -> (r: u8)
    ensures
        r == exit_code(max),
{
    match max {
        Some(s) => match s {
            Severity::Critical => 2,
            Severity::Warn => 1,
            Severity::Info => 0,
        },
        None => 0,
    }
}

/// The severities of anomalies.
pub open spec fn anomaly_severities(anomalies: Seq<Anomaly>) -> Seq<Severity> {
    Seq::new(anomalies.len(), |i: int| anomalies[i].severity)
}

/// The exit code of a search for anomalies, where one was asked for.
pub fn anomalies_exit_code(wanted: bool, anomalies: &Vec<Anomaly>) -> (r: u8)
    ensures
        r == (if wanted {
            exit_code(report::highest(anomaly_severities(anomalies@)))
        } else {
            0
        }),
{
    if !wanted {
        return 0;
    }
    let mut all: Vec<Severity> = Vec::new();
    let mut i: usize = 0;
    assert(all@ =~= anomaly_severities(anomalies@).take(0));
    while i < anomalies.len()
        invariant
            i <= anomalies@.len(),
            all@ == anomaly_severities(anomalies@).take(i as int),
        decreases anomalies@.len() - i,
    {
        all.push(anomalies[i].severity);
        assert(anomaly_severities(anomalies@).take(i + 1) =~= anomaly_severities(
            anomalies@,
        ).take(i as int).push(anomalies@[i as int].severity));
        i += 1;
    }
    assert(anomaly_severities(anomalies@).take(anomalies@.len() as int) =~= anomaly_severities(
        anomalies@,
    ));
    exit_code_for(report::max_severity(&all))
}

/// The severities of findings.
pub open spec fn finding_severities(findings: Seq<report::Finding>) -> Seq<Severity> {
    Seq::new(findings.len(), |i: int| findings[i].severity)
}

/// The exit code of a scan, where one was asked for.
pub fn scan_exit_code(wanted: bool, findings: &Vec<report::Finding>) -> (r: u8)
    ensures
        r == (if wanted {
            exit_code(report::highest(finding_severities(findings@)))
        } else {
            0
        }),
{
    if !wanted {
        return 0;
    }
    let mut all: Vec<Severity> = Vec::new();
    let mut i: usize = 0;
    assert(all@ =~= finding_severities(findings@).take(0));
    while i < findings.len()
        invariant
            i <= findings@.len(),
            all@ == finding_severities(findings@).take(i as int),
        decreases findings@.len() - i,
    {
        all.push(findings[i].severity);
        assert(finding_severities(findings@).take(i + 1) =~= finding_severities(findings@).take(
            i as int,
        ).push(findings@[i as int].severity));
        i += 1;
    }
    assert(finding_severities(findings@).take(findings@.len() as int) =~= finding_severities(
        findings@,
    ));
    exit_code_for(report::max_severity(&all))
}

/// A search fails exactly where something critical or a warning was found, and more for
/// something critical.
pub proof fn exit_code_tells_the_worst(s: Seq<Severity>)
    ensures
        exit_code(report::highest(s)) == 2 <==> s.contains(Severity::Critical),
        exit_code(report::highest(s)) == 0 <==> !s.contains(Severity::Critical) && !s.contains(
            Severity::Warn,
        ),
{
    if s.len() > 0 {
        report::highest_is_a_bound(s);
        let m = report::highest(s).unwrap();
        if s.contains(Severity::Critical) {
            let k = choose|k: int| 0 <= k < s.len() && s[k] == Severity::Critical;
            assert(report::rank(s[k]) <= report::rank(m));
        }
        if s.contains(Severity::Warn) {
            let k = choose|k: int| 0 <= k < s.len() && s[k] == Severity::Warn;
            assert(report::rank(s[k]) <= report::rank(m));
        }
    }
}

/// Whether a name, in lower case, holds one of the patterns, in lower case.
pub open spec fn holds_any(name: Seq<char>, patterns: Seq<Seq<char>>) -> bool {
    exists|i: int| 0 <= i < patterns.len() && text::occurs(name, #[trigger] patterns[i])
}

/// Whether a name holds one of the patterns, both in lower case already.
pub fn contains_any(name: &str, patterns: &Vec<String>) -> (r: bool)
    ensures
        r == holds_any(name@, text::texts(patterns@)),
{
    let mut i: usize = 0;
    while i < patterns.len()
        invariant
            i <= patterns@.len(),
            forall|j: int|
                0 <= j < i ==> !text::occurs(name@, #[trigger] text::texts(patterns@)[j]),
        decreases patterns@.len() - i,
    {
        assert(text::texts(patterns@)[i as int] == patterns@[i as int]@);
        if contains_text(name, patterns[i].as_str()) {
            return true;
        }
        i += 1;
    }
    false
}

/// Texts in lower case.
pub open spec fn lowered(patterns: Seq<Seq<char>>) -> Seq<Seq<char>> {
    Seq::new(patterns.len(), |i: int| text::lowercase(patterns[i]))
}

fn lower_all(patterns: &Vec<String>) -> (r: Vec<String>)
    ensures
        text::texts(r@) == lowered(text::texts(patterns@)),
{
    let ghost all = lowered(text::texts(patterns@));
    let mut r: Vec<String> = Vec::new();
    let mut i: usize = 0;
    assert(text::texts(r@) =~= all.take(0));
    while i < patterns.len()
        invariant
            i <= patterns@.len(),
            all == lowered(text::texts(patterns@)),
            text::texts(r@) == all.take(i as int),
        decreases patterns@.len() - i,
    {
        let low = patterns[i].as_str().to_lowercase();
        proof {
            text::lemma_texts_push(r@, low);
            assert(all.take(i as int).push(low@) =~= all.take(i + 1));
        }
        r.push(low);
        i += 1;
    }
    assert(all.take(all.len() as int) =~= all);
    r
}

/// The targets whose name holds one of the patterns, without regard to case.
pub open spec fn matching_targets(targets: Seq<ReclaimTarget>, patterns: Seq<Seq<char>>) -> Seq<
    ReclaimTarget,
>
    decreases targets.len(),
{
    if targets.len() == 0 {
        targets
    } else {
        let rest = matching_targets(targets.drop_last(), patterns);
        if holds_any(text::lowercase(targets.last().name@), lowered(patterns)) {
            rest.push(targets.last())
        } else {
            rest
        }
    }
}

fn keep_matching(targets: &Vec<ReclaimTarget>, low: &Vec<String>, patterns: &Vec<String>) -> (r:
    Vec<ReclaimTarget>)
    requires
        text::texts(low@) == lowered(text::texts(patterns@)),
    ensures
        r@ == matching_targets(targets@, text::texts(patterns@)),
{
    let mut r: Vec<ReclaimTarget> = Vec::new();
    let mut i: usize = 0;
    assert(targets@.take(0) =~= Seq::<ReclaimTarget>::empty());
    while i < targets.len()
        invariant
            i <= targets@.len(),
            text::texts(low@) == lowered(text::texts(patterns@)),
            r@ == matching_targets(targets@.take(i as int), text::texts(patterns@)),
        decreases targets@.len() - i,
    {
        let t = &targets[i];
        proof {
            assert(targets@.take(i + 1).drop_last() =~= targets@.take(i as int));
            assert(targets@.take(i + 1).last() == *t);
        }
        if contains_any(t.name.as_str().to_lowercase().as_str(), low) {
            r.push(
                ReclaimTarget {
                    name: t.name.clone(),
                    path: t.path.clone(),
                    bytes: t.bytes,
                    note: t.note.clone(),
                    auto: t.auto,
                },
            );
        }
        i += 1;
    }
    assert(targets@.take(targets@.len() as int) =~= targets@);
    r
}

/// The bytes of a target.
pub open spec fn target_weight() -> spec_fn(ReclaimTarget) -> nat {
    |t: ReclaimTarget| t.bytes as nat
}

proof fn lemma_matching_sum(targets: Seq<ReclaimTarget>, patterns: Seq<Seq<char>>)
    ensures
        order::sum(matching_targets(targets, patterns), target_weight()) <= order::sum(
            targets,
            target_weight(),
        ),
    decreases targets.len(),
{
    if targets.len() > 0 {
        lemma_matching_sum(targets.drop_last(), patterns);
        order::lemma_sum_push(
            matching_targets(targets.drop_last(), patterns),
            targets.last(),
            target_weight(),
        );
    }
}

/// Keeps only reclaim targets whose name contains one of `patterns` (case-insensitive).
pub fn filter_plan(plan: &ReclaimPlan, patterns: &Vec<String>) -> (r: ReclaimPlan)
    requires
        order::sum(plan.auto_targets@, target_weight()) <= u64::MAX,
    ensures
        r.auto_targets@ == matching_targets(plan.auto_targets@, text::texts(patterns@)),
        r.manual_targets@ == matching_targets(plan.manual_targets@, text::texts(patterns@)),
        r.auto_bytes == order::sum(r.auto_targets@, target_weight()),
{
    let low = lower_all(patterns);
    let auto_targets = keep_matching(&plan.auto_targets, &low, patterns);
    let manual_targets = keep_matching(&plan.manual_targets, &low, patterns);
    proof {
        lemma_matching_sum(plan.auto_targets@, text::texts(patterns@));
    }
    let mut auto_bytes: u64 = 0;
    let mut i: usize = 0;
    assert(auto_targets@.take(0) =~= Seq::<ReclaimTarget>::empty());
    while i < auto_targets.len()
        invariant
            i <= auto_targets@.len(),
            order::sum(auto_targets@, target_weight()) <= u64::MAX,
            auto_bytes == order::sum(auto_targets@.take(i as int), target_weight()),
        decreases auto_targets@.len() - i,
    {
        proof {
            order::lemma_sum_step(auto_targets@, i as int, target_weight());
        }
        auto_bytes += auto_targets[i].bytes;
        i += 1;
    }
    assert(auto_targets@.take(auto_targets@.len() as int) =~= auto_targets@);
    ReclaimPlan { auto_targets, manual_targets, auto_bytes }
}

/// Filtering adds no target: what it keeps was planned, and its name holds a pattern.
pub proof fn filtering_only_drops(
    targets: Seq<ReclaimTarget>,
    patterns: Seq<Seq<char>>,
    i: int,
)
    requires
        0 <= i < matching_targets(targets, patterns).len(),
    ensures
        targets.contains(matching_targets(targets, patterns)[i]),
        holds_any(
            text::lowercase(matching_targets(targets, patterns)[i].name@),
            lowered(patterns),
        ),
    decreases targets.len(),
{
    let rest = matching_targets(targets.drop_last(), patterns);
    if i < rest.len() {
        filtering_only_drops(targets.drop_last(), patterns, i);
        let k = choose|k: int| 0 <= k < targets.drop_last().len() && targets.drop_last()[k] == rest[i];
        assert(targets[k] == rest[i]);
    } else {
        assert(targets[targets.len() - 1] == targets.last());
    }
}

proof fn lemma_targets_total(targets: Seq<ReclaimTarget>)
    ensures
        engine::targets_total(targets) == order::sum(targets, target_weight()),
    decreases targets.len(),
{
    if targets.len() > 0 {
        let all = order::views(targets);
        assert(all.drop_last() =~= order::views(targets.drop_last()));
        assert(all.last() == targets.last()@);
        lemma_targets_total(targets.drop_last());
    }
}

/// The plan as far as it was asked for: all of it, or only the targets whose name contains
/// one of the texts in `only`.
pub fn chosen_plan(plan: ReclaimPlan, only: &Vec<String>) -> (r: ReclaimPlan)
    requires
        engine::targets_total(plan.auto_targets@) <= u64::MAX,
    ensures
        only@.len() == 0 ==> r == plan,
        only@.len() > 0 ==> {
            &&& r.auto_targets@ == matching_targets(plan.auto_targets@, text::texts(only@))
            &&& r.manual_targets@ == matching_targets(plan.manual_targets@, text::texts(only@))
            &&& r.auto_bytes == engine::targets_total(r.auto_targets@)
        },
        engine::targets_total(r.auto_targets@) <= u64::MAX,
{
    if only.len() == 0 {
        return plan;
    }
    proof {
        lemma_targets_total(plan.auto_targets@);
    }
    let kept = filter_plan(&plan, only);
    proof {
        lemma_targets_total(kept.auto_targets@);
    }
    kept
}

/// How deep the size tree goes: at least one level where the tree was asked for, six at most.
pub fn scan_depth(tree: bool, depth: usize) -> (r: usize)
    ensures
        r == ({
            let wanted = if tree && depth == 0 { 1 } else { depth };
            if wanted > MAX_DEPTH { MAX_DEPTH } else { wanted }
        }),
{
    let wanted: usize = if tree && depth == 0 {
        1
    } else {
        depth
    };
    if wanted > MAX_DEPTH {
        MAX_DEPTH
    } else {
        wanted
    }
}

/// The progress line, which replaces the one before.
pub open spec fn progress_text(frame: nat, label: Seq<char>, bytes: nat, dirs: nat) -> Seq<char> {
    "\r\x1b[2K"@ + tree::frame_of(frame) + " "@ + label + "… "@ + report::human_text(bytes)
        + " scanned · "@ + text::decimal(dirs) + " dirs"@
}

/// The progress line, which replaces the one before.
pub fn progress_line(frame: usize, label: &str, bytes: u64, dirs: u64) -> (r: String)
    ensures
        r@ == progress_text(frame as nat, label@, bytes as nat, dirs as nat),
{
    let mut r = "\r\x1b[2K".to_owned();
    r.append(spinner_frame(frame));
    r.append(" ");
    r.append(label);
    r.append("… ");
    r.append(human(bytes).as_str());
    r.append(" scanned · ");
    r.append(decimal_text(dirs).as_str());
    r.append(" dirs");
    r
}

/// Whether an answer is a yes.
pub open spec fn says_yes(answer: Seq<char>) -> bool {
    let a = text::trimmed(answer);
    a == "y"@ || a == "Y"@ || a == "yes"@
}

/// Whether an answer is a yes.
pub fn is_yes(answer: &str) -> (r: bool)
    ensures
        r == says_yes(answer@),
{
    let a = trim_text(answer);
    same_text(a.as_str(), "y") || same_text(a.as_str(), "Y") || same_text(a.as_str(), "yes")
}

/// What `--apply` has come to.
#[derive(Debug, Clone, Copy, PartialEq, Eq, Structural)]
pub enum Step {
    /// Browse, and trash what is picked and confirmed.
    Interactive,
    /// Print the plan for machines.
    Json,
    /// Print the plan.
    DryRun,
    /// There is nothing to do.
    Nothing,
    /// Refuse: nobody can be asked.
    Refuse,
    /// Ask, and go on only after a yes.
    Ask,
    /// Go on.
    Go,
}

/// What is asked of a command that can delete.
pub struct Request {
    /// Really delete.
    pub apply: bool,
    /// Do not ask.
    pub yes: bool,
    pub json: bool,
    pub plain: bool,
    /// Whether the output is a terminal.
    pub output_terminal: bool,
    /// Whether the input is a terminal.
    pub input_terminal: bool,
}

/// What to do where nothing is to be deleted.
pub open spec fn dry_step(q: Request, nothing_to_browse: bool) -> Step {
    if is_interactive(q.json, q.plain, q.output_terminal) && !nothing_to_browse {
        Step::Interactive
    } else if q.json {
        Step::Json
    } else {
        Step::DryRun
    }
}

/// What to do where something is to be deleted.
pub open spec fn apply_step(q: Request, nothing_to_delete: bool) -> Step {
    if nothing_to_delete {
        Step::Nothing
    } else if q.yes {
        Step::Go
    } else if !q.input_terminal {
        Step::Refuse
    } else {
        Step::Ask
    }
}

/// What to do.
pub open spec fn step_for(q: Request, nothing_to_browse: bool, nothing_to_delete: bool) -> Step {
    if q.apply { apply_step(q, nothing_to_delete) } else { dry_step(q, nothing_to_browse) }
}

/// What to do: without `--apply` nothing is ever deleted, and with it only after a yes, by
/// flag or by answer.
pub fn next_step(q: &Request, nothing_to_browse: bool, nothing_to_delete: bool) -> (r: Step)
    ensures
        r == step_for(*q, nothing_to_browse, nothing_to_delete),
{
    if q.apply {
        if nothing_to_delete {
            Step::Nothing
        } else if q.yes {
            Step::Go
        } else if !q.input_terminal {
            Step::Refuse
        } else {
            Step::Ask
        }
    } else if interactive(q.json, q.plain, q.output_terminal) && !nothing_to_browse {
        Step::Interactive
    } else if q.json {
        Step::Json
    } else {
        Step::DryRun
    }
}

/// Without `--apply` nothing is deleted without a person at the terminal.
pub proof fn nothing_is_deleted_by_default(
    q: Request,
    nothing_to_browse: bool,
    nothing_to_delete: bool,
)
    requires
        !q.apply,
    ensures
        ({
            let s = step_for(q, nothing_to_browse, nothing_to_delete);
            s == Step::Interactive || s == Step::Json || s == Step::DryRun
        }),
        step_for(q, nothing_to_browse, nothing_to_delete) == Step::Interactive
            ==> q.output_terminal,
{
}

/// Nothing is deleted unasked: going on needs both flags, and without the second a run that
/// nobody watches is refused.
pub proof fn unattended_deletion_needs_both_flags(
    q: Request,
    nothing_to_browse: bool,
    nothing_to_delete: bool,
)
    ensures
        step_for(q, nothing_to_browse, nothing_to_delete) == Step::Go ==> q.apply && q.yes,
        q.apply && !q.yes && !q.input_terminal && !nothing_to_delete ==> step_for(
            q,
            nothing_to_browse,
            nothing_to_delete,
        ) == Step::Refuse,
{
}

/// Whether a command that can delete does so: it was told to apply, there is something to
/// delete, and the yes came by flag, or by an answer at the terminal.
pub open spec fn goes_on(q: Request, nothing_to_delete: bool, answer: Option<Seq<char>>) -> bool {
    &&& q.apply
    &&& !nothing_to_delete
    &&& q.yes || (q.input_terminal && answer is Some && says_yes(answer.unwrap()))
}

/// Whether a command that asked was not told to go on.
pub open spec fn is_aborted(q: Request, nothing_to_delete: bool, answer: Option<Seq<char>>) -> bool {
    step_for(q, false, nothing_to_delete) == Step::Ask && !goes_on(q, nothing_to_delete, answer)
}

/// A command deletes exactly where its step is to go on, or to ask and the answer is a yes.
pub proof fn only_a_yes_deletes(
    q: Request,
    nothing_to_browse: bool,
    nothing_to_delete: bool,
    answer: Option<Seq<char>>,
)
    ensures
        goes_on(q, nothing_to_delete, answer) == {
            let s = step_for(q, nothing_to_browse, nothing_to_delete);
            s == Step::Go || (s == Step::Ask && answer is Some && says_yes(answer.unwrap()))
        },
        is_aborted(q, nothing_to_delete, answer) == (step_for(
            q,
            nothing_to_browse,
            nothing_to_delete,
        ) == Step::Ask && !(answer is Some && says_yes(answer.unwrap()))),
{
}

fn may_go_on(q: &Request, nothing_to_delete: bool, answer: &Option<String>) -> (r: bool)
    ensures
        r == goes_on(*q, nothing_to_delete, text::opt_text(*answer)),
{
    let agreed = match answer {
        Some(a) => is_yes(a.as_str()),
        None => false,
    };
    q.apply && !nothing_to_delete && (q.yes || (q.input_terminal && agreed))
}

/// Whether a file was not modified for at least so many days, as far as that is known.
pub open spec fn is_old(f: LargeFile, older: Option<u64>) -> bool {
    match older {
        Some(days) => match f.modified_days {
            Some(d) => d >= days,
            None => false,
        },
        None => true,
    }
}

/// The files that are old enough, in order.
pub open spec fn old_files(files: Seq<LargeFile>, older: Option<u64>) -> Seq<LargeFile>
    decreases files.len(),
{
    if files.len() == 0 {
        files
    } else {
        let rest = old_files(files.drop_last(), older);
        if is_old(files.last(), older) { rest.push(files.last()) } else { rest }
    }
}

/// The first `top` files that are old enough.
pub open spec fn picked_files(files: Seq<LargeFile>, older: Option<u64>, top: nat) -> Seq<
    LargeFile,
> {
    let kept = old_files(files, older);
    if kept.len() > top { kept.take(top as int) } else { kept }
}

fn is_old_enough(f: &LargeFile, older: Option<u64>) -> (r: bool)
    ensures
        r == is_old(*f, older),
{
    match older {
        Some(days) => match f.modified_days {
            Some(d) => d >= days,
            None => false,
        },
        None => true,
    }
}

/// Keeps the first `top` files that are old enough.
pub fn pick_files(files: Vec<LargeFile>, older: Option<u64>, top: usize) -> (r: Vec<LargeFile>)
    ensures
        r@ == picked_files(files@, older, top as nat),
{
    let ghost before = files@;
    let mut kept = files;
    let n = kept.len();
    let mut i: usize = 0;
    let mut seen: usize = 0;
    assert(before.take(0) =~= Seq::<LargeFile>::empty());
    assert(kept@.take(0) =~= Seq::<LargeFile>::empty());
    assert(kept@.skip(0) =~= before.skip(0));
    while seen < n
        invariant
            i <= kept@.len(),
            seen <= n,
            n == before.len(),
            kept@.len() - i == n - seen,
            kept@.take(i as int) == old_files(before.take(seen as int), older),
            kept@.skip(i as int) == before.skip(seen as int),
        decreases n - seen,
    {
        let len = kept.len();
        assert(i < len);
        proof {
            assert(before.take(seen + 1).drop_last() =~= before.take(seen as int));
            assert(kept@.skip(i as int)[0] == kept@[i as int]);
            assert(before.skip(seen as int)[0] == before[seen as int]);
            assert(before.take(seen + 1).last() == kept@[i as int]);
            assert(before.skip(seen as int).skip(1) =~= before.skip(seen + 1));
            assert(kept@.skip(i + 1) =~= kept@.skip(i as int).skip(1));
        }
        if is_old_enough(&kept[i], older) {
            assert(kept@.take(i + 1) =~= kept@.take(i as int).push(kept@[i as int]));
            i += 1;
        } else {
            let ghost now = kept@;
            let _ = kept.remove(i);
            proof {
                assert(kept@.take(i as int) =~= now.take(i as int));
                assert(kept@.skip(i as int) =~= now.skip(i + 1));
            }
        }
        seen += 1;
    }
    proof {
        assert(kept@.take(i as int) =~= kept@);
        assert(before.take(n as int) =~= before);
    }
    if kept.len() > top {
        let ghost all = kept@;
        kept.truncate(top);
        assert(kept@ =~= all.take(top as int));
    }
    kept
}

/// The row for a large file.
pub open spec fn large_row(f: LargeFile) -> RowView {
    RowView {
        bytes: f.bytes,
        label: f.path@,
        path: f.path@,
        selected: false,
        meta: MetaView::Age(f.modified_days),
        group: None,
    }
}

/// The rows for large files.
pub fn large_rows(files: &Vec<LargeFile>) -> (r: Vec<Row>)
    ensures
        order::views(r@) == Seq::new(files@.len(), |i: int| large_row(files@[i])),
{
    let ghost all = Seq::new(files@.len(), |i: int| large_row(files@[i]));
    let mut rows: Vec<Row> = Vec::new();
    let mut i: usize = 0;
    assert(order::views(rows@) =~= all.take(0));
    while i < files.len()
        invariant
            i <= files@.len(),
            all == Seq::new(files@.len(), |i: int| large_row(files@[i])),
            order::views(rows@) == all.take(i as int),
        decreases files@.len() - i,
    {
        let f = &files[i];
        let row = Row::new(
            f.bytes,
            f.path.clone(),
            f.path.clone(),
            RowMeta::Age(f.modified_days),
        );
        proof {
            order::lemma_views_push(rows@, row);
            assert(all.take(i as int).push(row@) =~= all.take(i + 1));
        }
        rows.push(row);
        i += 1;
    }
    assert(all.take(all.len() as int) =~= all);
    rows
}

/// The title of the list of large files.
pub open spec fn large_title_text(older: Option<u64>) -> Seq<char> {
    match older {
        Some(days) => "deepscan large · not modified in "@ + text::decimal(days as nat)
            + "+ days"@,
        None => "deepscan large"@,
    }
}

/// The title of the list of large files.
pub fn large_title(older: Option<u64>) -> (r: String)
    ensures
        r@ == large_title_text(older),
{
    match older {
        Some(days) => {
            let mut r = "deepscan large · not modified in ".to_owned();
            r.append(decimal_text(days).as_str());
            r.append("+ days");
            r
        },
        None => "deepscan large".to_owned(),
    }
}

/// The row for copy `k` of a group of duplicates.
pub open spec fn copy_row(g: DuplicateGroup, id: usize, k: int) -> RowView {
    RowView {
        bytes: g.bytes,
        label: g.paths@[k]@,
        path: g.paths@[k]@,
        selected: false,
        meta: MetaView::Tag("×"@ + text::decimal(g.paths@.len())),
        group: Some(id),
    }
}

/// The rows for the first copies of a group.
pub open spec fn copy_rows(g: DuplicateGroup, id: usize, n: nat) -> Seq<RowView> {
    Seq::new(n, |k: int| copy_row(g, id, k))
}

/// The rows for groups of duplicates: the rows of a group share its index.
pub open spec fn dupe_row_views(groups: Seq<DuplicateGroup>) -> Seq<RowView>
    decreases groups.len(),
{
    if groups.len() == 0 {
        Seq::empty()
    } else {
        dupe_row_views(groups.drop_last()) + copy_rows(
            groups.last(),
            (groups.len() - 1) as usize,
            groups.last().paths@.len(),
        )
    }
}

/// The rows for the first `top` groups of duplicates. None is selected, so every group keeps
/// a copy.
pub fn dupe_rows(groups: &Vec<DuplicateGroup>, top: usize) -> (r: Vec<Row>)
    ensures
        order::views(r@) == dupe_row_views(
            if groups@.len() > top {
                groups@.take(top as int)
            } else {
                groups@
            },
        ),
        widget::keeps_a_copy(r@),
{
    let n = if groups.len() > top {
        top
    } else {
        groups.len()
    };
    let mut rows: Vec<Row> = Vec::new();
    let mut g: usize = 0;
    assert(groups@.take(0) =~= Seq::<DuplicateGroup>::empty());
    assert(order::views(rows@) =~= Seq::<RowView>::empty());
    while g < n
        invariant
            g <= n <= groups@.len(),
            order::views(rows@) == dupe_row_views(groups@.take(g as int)),
            forall|i: int| 0 <= i < rows@.len() ==> !(#[trigger] rows@[i]).selected,
        decreases n - g,
    {
        let group = &groups[g];
        let ghost before = order::views(rows@);
        let mut k: usize = 0;
        assert(before + copy_rows(*group, g, 0) =~= before);
        while k < group.paths.len()
            invariant
                k <= group.paths@.len(),
                order::views(rows@) == before + copy_rows(*group, g, k as nat),
                forall|i: int| 0 <= i < rows@.len() ==> !(#[trigger] rows@[i]).selected,
            decreases group.paths@.len() - k,
        {
            let mut tag = "×".to_owned();
            tag.append(decimal_text(group.paths.len() as u64).as_str());
            let row = Row {
                bytes: group.bytes,
                label: group.paths[k].clone(),
                path: group.paths[k].clone(),
                selected: false,
                meta: RowMeta::Tag(tag),
                group: Some(g),
            };
            proof {
                order::lemma_views_push(rows@, row);
                assert((before + copy_rows(*group, g, k as nat)).push(row@) =~= before + copy_rows(
                    *group,
                    g,
                    (k + 1) as nat,
                ));
            }
            rows.push(row);
            k += 1;
        }
        proof {
            assert(groups@.take(g + 1).drop_last() =~= groups@.take(g as int));
            assert(groups@.take(g + 1).last() == *group);
        }
        g += 1;
    }
    proof {
        if groups@.len() <= top {
            assert(groups@.take(n as int) =~= groups@);
        }
        assert forall|i: int|
            0 <= i < rows@.len() && (#[trigger] rows@[i]).group is Some implies widget::has_unselected(
            rows@,
            rows@[i].group,
        ) by {
            assert(!rows@[i].selected);
        }
    }
    rows
}

/// The title of the list of duplicates.
pub open spec fn dupes_title_text(wasted: nat) -> Seq<char> {
    "deepscan dupes · "@ + report::human_text(wasted) + " reclaimable"@
}

/// The title of the list of duplicates.
pub fn dupes_title(groups: &Vec<DuplicateGroup>) -> (r: String)
    requires
        order::sum(groups@, render::waste()) <= u64::MAX,
    ensures
        r@ == dupes_title_text(order::sum(groups@, render::waste())),
{
    let mut r = "deepscan dupes · ".to_owned();
    r.append(human(render::total_waste(groups)).as_str());
    r.append(" reclaimable");
    r
}

/// The row for an app bundle.
pub open spec fn app_row(at: Seq<char>, bytes: u64) -> RowView {
    RowView {
        bytes,
        label: at,
        path: at,
        selected: true,
        meta: MetaView::Confidence("app"@),
        group: None,
    }
}

/// The row for a leftover.
pub open spec fn leftover_row(l: report::Leftover) -> RowView {
    RowView {
        bytes: l.bytes,
        label: l.path@,
        path: l.path@,
        selected: true,
        meta: MetaView::Confidence(match l.confidence {
            report::Confidence::High => "high"@,
            report::Confidence::Medium => "med?"@,
        }),
        group: None,
    }
}

/// The rows for an uninstall: the bundle, then the leftovers, all selected.
pub open spec fn uninstall_row_views(plan: UninstallPlan) -> Seq<RowView> {
    (match plan.app_path {
        Some(at) => Seq::empty().push(app_row(at@, plan.app_bytes)),
        None => Seq::empty(),
    }) + Seq::new(plan.leftovers@.len(), |i: int| leftover_row(plan.leftovers@[i]))
}

/// The rows for an uninstall: the bundle, then the leftovers, all selected.
pub fn uninstall_rows(plan: &UninstallPlan) -> (r: Vec<Row>)
    ensures
        order::views(r@) == uninstall_row_views(*plan),
        widget::keeps_a_copy(r@),
{
    let mut rows: Vec<Row> = Vec::new();
    assert(order::views(rows@) =~= Seq::<RowView>::empty());
    if let Some(at) = &plan.app_path {
        let mut row = Row::new(
            plan.app_bytes,
            at.clone(),
            at.clone(),
            RowMeta::Confidence("app".to_owned()),
        );
        row.selected = true;
        proof {
            order::lemma_views_push(rows@, row);
        }
        rows.push(row);
    }
    let ghost head = order::views(rows@);
    let ghost all = Seq::new(plan.leftovers@.len(), |i: int| leftover_row(plan.leftovers@[i]));
    let mut i: usize = 0;
    assert(head + all.take(0) =~= head);
    while i < plan.leftovers.len()
        invariant
            i <= plan.leftovers@.len(),
            all == Seq::new(plan.leftovers@.len(), |i: int| leftover_row(plan.leftovers@[i])),
            order::views(rows@) == head + all.take(i as int),
            forall|k: int| 0 <= k < rows@.len() ==> (#[trigger] rows@[k]).group is None,
        decreases plan.leftovers@.len() - i,
    {
        let l = &plan.leftovers[i];
        let tag = match l.confidence {
            report::Confidence::High => "high".to_owned(),
            report::Confidence::Medium => "med?".to_owned(),
        };
        let mut row = Row::new(
            l.bytes,
            l.path.clone(),
            l.path.clone(),
            RowMeta::Confidence(tag),
        );
        row.selected = true;
        proof {
            order::lemma_views_push(rows@, row);
            assert((head + all.take(i as int)).push(row@) =~= head + all.take(i + 1));
        }
        rows.push(row);
        i += 1;
    }
    assert(all.take(all.len() as int) =~= all);
    rows
}

/// The title of an uninstall.
pub fn uninstall_title(plan: &UninstallPlan) -> (r: String)
    ensures
        r@ == "deepscan uninstall · "@ + plan.app_name@,
{
    let mut r = "deepscan uninstall · ".to_owned();
    r.append(plan.app_name.as_str());
    r
}

/// Whether an uninstall has nothing to remove.
pub fn nothing_to_uninstall(plan: &UninstallPlan) -> (r: bool)
    ensures
        r == removes_nothing(*plan),
{
    plan.app_path.is_none() && plan.leftovers.len() == 0
}

/// The row for a reclaim target.
pub open spec fn target_row(t: ReclaimTarget, tag: Seq<char>) -> RowView {
    RowView {
        bytes: t.bytes,
        label: t.name@,
        path: t.path@,
        selected: false,
        meta: MetaView::Tag(tag),
        group: None,
    }
}

/// The rows for reclaim targets.
pub open spec fn target_rows(ts: Seq<ReclaimTarget>, tag: Seq<char>) -> Seq<RowView> {
    Seq::new(ts.len(), |i: int| target_row(ts[i], tag))
}

fn push_target_rows(rows: &mut Vec<Row>, ts: &Vec<ReclaimTarget>, tag: &str)
    requires
        forall|k: int| 0 <= k < old(rows)@.len() ==> (#[trigger] old(rows)@[k]).group is None,
    ensures
        order::views(final(rows)@) == order::views(old(rows)@) + target_rows(ts@, tag@),
        forall|k: int| 0 <= k < final(rows)@.len() ==> (#[trigger] final(rows)@[k]).group is None,
{
    let ghost head = order::views(rows@);
    let ghost all = target_rows(ts@, tag@);
    let mut i: usize = 0;
    assert(head + all.take(0) =~= head);
    while i < ts.len()
        invariant
            i <= ts@.len(),
            all == target_rows(ts@, tag@),
            order::views(rows@) == head + all.take(i as int),
            forall|k: int| 0 <= k < rows@.len() ==> (#[trigger] rows@[k]).group is None,
        decreases ts@.len() - i,
    {
        let t = &ts[i];
        let row = Row::new(
            t.bytes,
            t.name.clone(),
            t.path.clone(),
            RowMeta::Tag(tag.to_owned()),
        );
        proof {
            order::lemma_views_push(rows@, row);
            assert((head + all.take(i as int)).push(row@) =~= head + all.take(i + 1));
        }
        rows.push(row);
        i += 1;
    }
    assert(all.take(all.len() as int) =~= all);
}

/// The rows for a reclaim plan: the safe targets, then those to be reviewed.
pub fn clean_rows(plan: &ReclaimPlan) -> (r: Vec<Row>)
    ensures
        order::views(r@) == target_rows(plan.auto_targets@, "safe"@) + target_rows(
            plan.manual_targets@,
            "review"@,
        ),
        widget::keeps_a_copy(r@),
{
    let mut rows: Vec<Row> = Vec::new();
    push_target_rows(&mut rows, &plan.auto_targets, "safe");
    push_target_rows(&mut rows, &plan.manual_targets, "review");
    assert(order::views(rows@) =~= target_rows(plan.auto_targets@, "safe"@) + target_rows(
        plan.manual_targets@,
        "review"@,
    ));
    rows
}

/// What is left to do once the lines of a command are printed.
#[derive(Debug)]
pub enum Act {
    /// Nothing.
    Done,
    /// Fail with a message.
    Fail(String),
    /// Print the result for machines.
    Json,
    /// Browse these rows under a title, and trash what is picked and confirmed.
    Browse(Vec<Row>, String),
    /// Ask, and go on only after a yes.
    Ask(String),
    /// Go on.
    Go,
}

/// What an act says: rows and texts by their views.
pub enum ActView {
    Done,
    Fail(Seq<char>),
    Json,
    Browse(Seq<RowView>, Seq<char>),
    Ask(Seq<char>),
    Go,
}

impl View for Act {
    type V = ActView;

    open spec fn view(&self) -> ActView {
        match *self {
            Act::Done => ActView::Done,
            Act::Fail(m) => ActView::Fail(m@),
            Act::Json => ActView::Json,
            Act::Browse(rows, title) => ActView::Browse(order::views(rows@), title@),
            Act::Ask(q) => ActView::Ask(q@),
            Act::Go => ActView::Go,
        }
    }
}

/// What a command comes to: lines to print, and what is left to do then.
#[derive(Debug)]
pub struct Outcome {
    pub said: Page,
    pub act: Act,
}

impl View for Outcome {
    type V = (Seq<Seq<char>>, ActView);

    open spec fn view(&self) -> (Seq<Seq<char>>, ActView) {
        (self.said@, self.act@)
    }
}

/// What `scan` comes to where it is not browsed.
pub open spec fn scan_outcome(p: Palette, rep: ScanReport, json: bool) -> (
    Seq<Seq<char>>,
    ActView,
) {
    if json {
        (render::no_lines(), ActView::Json)
    } else {
        (render::scan_report(p, rep), ActView::Done)
    }
}

/// Shows a scan, for machines or in print, with the exit code.
pub fn run_scan(p: &Palette, rep: &ScanReport, json: bool, wants_code: bool) -> (r: (u8, Outcome))
    requires
        render::report_fits(*rep),
    ensures
        r.0 == (if wants_code {
            exit_code(report::highest(finding_severities(rep.findings@)))
        } else {
            0
        }),
        r.1@ == scan_outcome(*p, *rep, json),
{
    let code = scan_exit_code(wants_code, &rep.findings);
    let outcome = if json {
        Outcome { said: Page::new(), act: Act::Json }
    } else {
        Outcome { said: render_scan(p, rep), act: Act::Done }
    };
    (code, outcome)
}

/// What `space` comes to.
pub open spec fn space_outcome(p: Palette, root: Seq<char>, rep: SpaceReport, json: bool) -> (
    Seq<Seq<char>>,
    ActView,
) {
    if json {
        (render::no_lines(), ActView::Json)
    } else {
        (render::space_lines(p, root, rep), ActView::Done)
    }
}

/// Shows the accounting of a volume, for machines or in print.
pub fn run_space(p: &Palette, root: &str, rep: &SpaceReport, json: bool) -> (r: Outcome)
    requires
        render::disk_fits(rep.disk),
    ensures
        r@ == space_outcome(*p, root@, *rep, json),
{
    if json {
        Outcome { said: Page::new(), act: Act::Json }
    } else {
        Outcome { said: render_space(p, root, rep), act: Act::Done }
    }
}

/// What `large` comes to.
pub open spec fn large_outcome(
    p: Palette,
    files: Seq<LargeFile>,
    older: Option<u64>,
    how: Output,
) -> (Seq<Seq<char>>, ActView) {
    match how {
        Output::Interactive => (
            render::no_lines(),
            ActView::Browse(
                Seq::new(files.len(), |i: int| large_row(files[i])),
                large_title_text(older),
            ),
        ),
        Output::Json => (render::no_lines(), ActView::Json),
        Output::Plain => (render::large_report(p, files, older), ActView::Done),
    }
}

/// Lists the largest files: those that are old enough, the first `top`, to browse, for
/// machines, or in print.
pub fn run_large(
    p: &Palette,
    found: Vec<LargeFile>,
    older: Option<u64>,
    top: usize,
    json: bool,
    plain: bool,
    terminal: bool,
) -> (r: (Vec<LargeFile>, Outcome))
    ensures
        r.0@ == picked_files(found@, older, top as nat),
        r.1@ == large_outcome(
            *p,
            r.0@,
            older,
            output_for(json, plain, terminal, r.0@.len() == 0),
        ),
{
    let files = pick_files(found, older, top);
    let outcome = match output(json, plain, terminal, files.len() == 0) {
        Output::Interactive => Outcome {
            said: Page::new(),
            act: Act::Browse(large_rows(&files), large_title(older)),
        },
        Output::Json => Outcome { said: Page::new(), act: Act::Json },
        Output::Plain => Outcome { said: render_large(p, &files, older), act: Act::Done },
    };
    (files, outcome)
}

/// The first `top` groups.
pub open spec fn first_groups(groups: Seq<DuplicateGroup>, top: nat) -> Seq<DuplicateGroup> {
    if groups.len() > top { groups.take(top as int) } else { groups }
}

/// The groups that are written out for machines: the first `top`.
pub fn shown_groups(groups: Vec<DuplicateGroup>, top: usize) -> (r: Vec<DuplicateGroup>)
    ensures
        r@ == first_groups(groups@, top as nat),
{
    let mut shown = groups;
    shown.truncate(top);
    shown
}

/// What `dupes` comes to.
pub open spec fn dupes_outcome(
    p: Palette,
    groups: Seq<DuplicateGroup>,
    top: nat,
    how: Output,
) -> (Seq<Seq<char>>, ActView) {
    match how {
        Output::Interactive => (
            render::no_lines(),
            ActView::Browse(
                dupe_row_views(first_groups(groups, top)),
                dupes_title_text(order::sum(groups, render::waste())),
            ),
        ),
        Output::Json => (render::no_lines(), ActView::Json),
        Output::Plain => (render::dupes_report(p, groups, top), ActView::Done),
    }
}

/// Lists duplicates: the first `top` groups, to browse, for machines, or in print.
pub fn run_dupes(
    p: &Palette,
    groups: &Vec<DuplicateGroup>,
    top: usize,
    json: bool,
    plain: bool,
    terminal: bool,
) -> (r: Outcome)
    requires
        order::sum(groups@, render::waste()) <= u64::MAX,
    ensures
        r@ == dupes_outcome(
            *p,
            groups@,
            top as nat,
            output_for(json, plain, terminal, groups@.len() == 0),
        ),
        r.act matches Act::Browse(rows, _) ==> widget::keeps_a_copy(rows@),
{
    match output(json, plain, terminal, groups.len() == 0) {
        Output::Interactive => Outcome {
            said: Page::new(),
            act: Act::Browse(dupe_rows(groups, top), dupes_title(groups)),
        },
        Output::Json => Outcome { said: Page::new(), act: Act::Json },
        Output::Plain => Outcome { said: render_dupes(p, groups, top), act: Act::Done },
    }
}

/// What `anomalies` comes to.
pub open spec fn anomalies_outcome(p: Palette, found: Seq<Anomaly>, json: bool) -> (
    Seq<Seq<char>>,
    ActView,
) {
    if json {
        (render::no_lines(), ActView::Json)
    } else {
        (render::anomalies_report(p, found), ActView::Done)
    }
}

/// Lists anomalies, for machines or in print, with the exit code.
pub fn run_anomalies(p: &Palette, found: &Vec<Anomaly>, json: bool, wants_code: bool) -> (r: (
    u8,
    Outcome,
))
    requires
        order::sum(found@, render::cache_bytes()) <= u64::MAX,
    ensures
        r.0 == (if wants_code {
            exit_code(report::highest(anomaly_severities(found@)))
        } else {
            0
        }),
        r.1@ == anomalies_outcome(*p, found@, json),
{
    let code = anomalies_exit_code(wants_code, found);
    let outcome = if json {
        Outcome { said: Page::new(), act: Act::Json }
    } else {
        Outcome { said: render_anomalies(p, found), act: Act::Done }
    };
    (code, outcome)
}

/// What `clean` comes to.
pub open spec fn clean_outcome(p: Palette, plan: ReclaimPlan, q: Request) -> (
    Seq<Seq<char>>,
    ActView,
) {
    let auto = plan.auto_targets@;
    let manual = plan.manual_targets@;
    let empty = auto.len() + manual.len() == 0;
    match step_for(q, empty, auto.len() == 0) {
        Step::Interactive => (
            render::no_lines(),
            ActView::Browse(
                target_rows(auto, "safe"@) + target_rows(manual, "review"@),
                "deepscan clean · caches"@,
            ),
        ),
        Step::Json => (render::no_lines(), ActView::Json),
        Step::DryRun => (render::plan_report(p, plan, true), ActView::Done),
        Step::Nothing => (
            if q.json {
                render::no_lines()
            } else {
                render::no_lines().push(render::nothing_safe_text(p))
            },
            ActView::Done,
        ),
        Step::Refuse => (
            render::no_lines(),
            ActView::Fail(
                "refusing to delete without confirmation — re-run with --apply --yes"@,
            ),
        ),
        Step::Ask => (
            if q.json {
                render::no_lines()
            } else {
                render::plan_report(p, plan, false)
            },
            ActView::Ask(render::reclaim_question_text(plan.auto_bytes)),
        ),
        Step::Go => (render::no_lines(), ActView::Go),
    }
}

/// What reclaiming caches comes to before anything is deleted: what is shown, and whether to
/// browse, to ask, to refuse or to go on. Without `--apply` it never is to ask or to go on.
pub fn run_clean(p: &Palette, plan: &ReclaimPlan, q: &Request) -> (r: Outcome)
    ensures
        r@ == clean_outcome(*p, *plan, *q),
        r.act is Go ==> q.apply && q.yes,
        r.act is Ask ==> q.apply && q.input_terminal,
{
    let empty = plan.auto_targets.len() == 0 && plan.manual_targets.len() == 0;
    match next_step(q, empty, plan.auto_targets.len() == 0) {
        Step::Interactive => Outcome {
            said: Page::new(),
            act: Act::Browse(clean_rows(plan), "deepscan clean · caches".to_owned()),
        },
        Step::Json => Outcome { said: Page::new(), act: Act::Json },
        Step::DryRun => Outcome { said: render_plan(p, plan, true), act: Act::Done },
        Step::Nothing => {
            let mut said = Page::new();
            if !q.json {
                said.push(nothing_safe(p));
            }
            Outcome { said, act: Act::Done }
        },
        Step::Refuse => Outcome {
            said: Page::new(),
            act: Act::Fail(
                "refusing to delete without confirmation — re-run with --apply --yes".to_owned(),
            ),
        },
        Step::Ask => {
            let said = if q.json {
                Page::new()
            } else {
                render_plan(p, plan, false)
            };
            Outcome { said, act: Act::Ask(reclaim_question(plan.auto_bytes)) }
        },
        Step::Go => Outcome { said: Page::new(), act: Act::Go },
    }
}

/// What `clean` says at its end.
pub open spec fn clean_end(
    p: Palette,
    plan: ReclaimPlan,
    q: Request,
    answer: Option<Seq<char>>,
    result: Option<ReclaimResult>,
) -> Seq<Seq<char>> {
    match result {
        Some(res) => if q.json {
            render::no_lines()
        } else {
            render::reclaimed_report(p, res)
        },
        None => if is_aborted(q, plan.auto_targets@.len() == 0, answer) {
            render::no_lines().push("Aborted. Nothing deleted."@)
        } else {
            render::no_lines()
        },
    }
}

/// Sees a reclaim through once the question, where there was one, is answered. Nothing is
/// deleted without `--apply`, nor without a yes, by flag or by answer; what is deleted are the
/// automatic targets of the plan, and those alone.
pub fn finish_clean<F: Fn(&String) -> Result<(), String>>(
    p: &Palette,
    plan: &ReclaimPlan,
    q: &Request,
    answer: &Option<String>,
    home: &Option<String>,
    delete: F,
) -> (r: (Page, Option<ReclaimResult>))
    requires
        engine::targets_total(plan.auto_targets@) <= u64::MAX,
        forall|i: int|
            0 <= i < plan.auto_targets@.len() && engine::safe_to_delete(
                (#[trigger] plan.auto_targets@[i]).path@,
                text::opt_text(*home),
            ) ==> call_requires(delete, (&plan.auto_targets@[i].path,)),
    ensures
        r.1 is Some == goes_on(*q, plan.auto_targets@.len() == 0, text::opt_text(*answer)),
        r.1 matches Some(result) ==> {
            &&& result.deleted@.len() == plan.auto_targets@.len()
            &&& forall|i: int|
                0 <= i < plan.auto_targets@.len() ==> engine::is_outcome_of(
                    #[trigger] result.deleted@[i],
                    plan.auto_targets@[i],
                    text::opt_text(*home),
                    delete,
                )
            &&& result.freed_bytes == order::sum(result.deleted@, engine::freed())
        },
        r.0@ == clean_end(*p, *plan, *q, text::opt_text(*answer), r.1),
{
    let nothing = plan.auto_targets.len() == 0;
    let mut said = Page::new();
    if may_go_on(q, nothing, answer) {
        let result = execute_reclaim_with(&plan.auto_targets, home, delete);
        if !q.json {
            said = render_reclaimed(p, &result);
        }
        return (said, Some(result));
    }
    if next_step(q, false, nothing) == Step::Ask {
        said.push("Aborted. Nothing deleted.".to_owned());
    }
    (said, None)
}

/// What `uninstall` shows of a plan once it is to be applied.
pub open spec fn uninstall_shown(p: Palette, plan: UninstallPlan, q: Request) -> Seq<Seq<char>> {
    if q.json { render::no_lines() } else { render::uninstall_report(p, plan) }
}

/// What `uninstall` comes to.
pub open spec fn uninstall_outcome(p: Palette, plan: Option<UninstallPlan>, q: Request) -> (
    Seq<Seq<char>>,
    ActView,
) {
    match plan {
        None => (
            render::no_lines(),
            ActView::Fail("app not found — pass the exact name or a path to the .app bundle"@),
        ),
        Some(plan) => {
            match step_for(q, false, removes_nothing(plan)) {
                Step::Interactive => (
                    render::no_lines(),
                    ActView::Browse(
                        uninstall_row_views(plan),
                        "deepscan uninstall · "@ + plan.app_name@,
                    ),
                ),
                Step::Json => (render::no_lines(), ActView::Json),
                Step::DryRun => (
                    render::uninstall_report(p, plan).push(render::uninstall_hint_text(p)),
                    ActView::Done,
                ),
                Step::Nothing => (uninstall_shown(p, plan, q), ActView::Done),
                Step::Refuse => (
                    uninstall_shown(p, plan, q),
                    ActView::Fail(
                        "refusing to uninstall without confirmation — re-run with --apply --yes"@,
                    ),
                ),
                Step::Ask => (
                    uninstall_shown(p, plan, q),
                    ActView::Ask(render::uninstall_question_text(plan)),
                ),
                Step::Go => (uninstall_shown(p, plan, q), ActView::Go),
            }
        },
    }
}

/// What uninstalling an app comes to before anything is moved: what is shown, and whether to
/// browse, to ask, to refuse or to go on. Without `--apply` it never is to ask or to go on.
pub fn run_uninstall(p: &Palette, plan: &Option<UninstallPlan>, q: &Request) -> (r: Outcome)
    ensures
        r@ == uninstall_outcome(*p, *plan, *q),
        r.act is Go ==> q.apply && q.yes,
        r.act is Ask ==> q.apply && q.input_terminal,
{
    let plan = match plan {
        Some(plan) => plan,
        None => {
            return Outcome {
                said: Page::new(),
                act: Act::Fail(
                    "app not found — pass the exact name or a path to the .app bundle".to_owned(),
                ),
            };
        },
    };
    let step = next_step(q, false, nothing_to_uninstall(plan));
    let mut said = Page::new();
    if !q.json && step != Step::Interactive {
        said = render_uninstall(p, plan);
    }
    let act = match step {
        Step::Interactive => Act::Browse(uninstall_rows(plan), uninstall_title(plan)),
        Step::Json => Act::Json,
        Step::DryRun => {
            said.push(uninstall_hint(p));
            Act::Done
        },
        Step::Nothing => Act::Done,
        Step::Refuse => Act::Fail(
            "refusing to uninstall without confirmation — re-run with --apply --yes".to_owned(),
        ),
        Step::Ask => Act::Ask(uninstall_question(plan)),
        Step::Go => Act::Go,
    };
    Outcome { said, act }
}

proof fn lemma_removed_bytes(outcomes: Seq<UninstallOutcome>, plan: UninstallPlan)
    requires
        outcomes.len() <= uninstall::removals(plan).len(),
        forall|i: int|
            0 <= i < outcomes.len() ==> (#[trigger] outcomes[i]).bytes == uninstall::removals(
                plan,
            )[i].1,
    ensures
        order::sum(outcomes, render::trashed_bytes()) <= uninstall::plan_bytes(plan),
        ({
            let first: int = if plan.app_path is Some { 1 } else { 0 };
            outcomes.len() >= first ==> order::sum(outcomes, render::trashed_bytes())
                <= plan.app_bytes + order::sum(
                order::views(plan.leftovers@).take(outcomes.len() - first),
                uninstall::leftover_bytes(),
            )
        }),
    decreases outcomes.len(),
{
    let first: int = if plan.app_path is Some { 1 } else { 0 };
    let all = order::views(plan.leftovers@);
    let n = outcomes.len() as int;
    if n > 0 {
        lemma_removed_bytes(outcomes.drop_last(), plan);
        assert(outcomes[n - 1] == outcomes.last());
        if n > first {
            order::lemma_sum_step(all, n - 1 - first, uninstall::leftover_bytes());
            assert(all[n - 1 - first] == plan.leftovers@[n - 1 - first]@);
        }
    }
    if n >= first {
        order::lemma_sum_take(all, n - first, uninstall::leftover_bytes());
    }
}

/// Whether an uninstall has nothing to remove.
pub open spec fn removes_nothing(plan: UninstallPlan) -> bool {
    plan.app_path is None && plan.leftovers@.len() == 0
}

/// What `uninstall` says at its end.
pub open spec fn uninstall_end(
    p: Palette,
    plan: Option<UninstallPlan>,
    q: Request,
    answer: Option<Seq<char>>,
    result: Option<Vec<UninstallOutcome>>,
) -> Seq<Seq<char>> {
    match result {
        Some(outcomes) => if q.json {
            render::no_lines()
        } else {
            render::removed_report(p, outcomes@)
        },
        None => if plan is Some && is_aborted(q, removes_nothing(plan.unwrap()), answer) {
            render::no_lines().push("Aborted. Nothing moved."@)
        } else {
            render::no_lines()
        },
    }
}

/// Sees an uninstall through once the question, where there was one, is answered. Nothing is
/// moved without `--apply`, nor without a yes, by flag or by answer; what is moved is what the
/// plan removes, and that alone.
pub fn finish_uninstall<F: Fn(&String) -> Result<(), String>>(
    p: &Palette,
    plan: &Option<UninstallPlan>,
    q: &Request,
    answer: &Option<String>,
    home: &Option<String>,
    delete: F,
) -> (r: (Page, Option<Vec<UninstallOutcome>>))
    requires
        *plan matches Some(plan) ==> {
            &&& uninstall::plan_bytes(plan) <= u64::MAX
            &&& forall|i: int|
                0 <= i < uninstall::removals(plan).len() && engine::safe_to_trash(
                    (#[trigger] uninstall::removals(plan)[i]).0@,
                    text::opt_text(*home),
                ) ==> call_requires(delete, (&uninstall::removals(plan)[i].0,))
        },
    ensures
        r.1 is Some == (plan is Some && goes_on(
            *q,
            removes_nothing(plan.unwrap()),
            text::opt_text(*answer),
        )),
        r.1 matches Some(outcomes) ==> {
            let removals = uninstall::removals(plan.unwrap());
            &&& outcomes@.len() == removals.len()
            &&& forall|i: int|
                0 <= i < outcomes@.len() ==> uninstall::is_removed(
                    #[trigger] outcomes@[i],
                    removals[i],
                    text::opt_text(*home),
                    delete,
                )
        },
        r.0@ == uninstall_end(*p, *plan, *q, text::opt_text(*answer), r.1),
{
    let mut said = Page::new();
    let plan = match plan {
        Some(plan) => plan,
        None => {
            return (said, None);
        },
    };
    let nothing = nothing_to_uninstall(plan);
    if may_go_on(q, nothing, answer) {
        let outcomes = execute_uninstall(plan, home, delete);
        if !q.json {
            proof {
                lemma_removed_bytes(outcomes@, *plan);
            }
            said = render_removed(p, &outcomes);
        }
        return (said, Some(outcomes));
    }
    if next_step(q, false, nothing) == Step::Ask {
        said.push("Aborted. Nothing moved.".to_owned());
    }
    (said, None)
}

/// Size outliers among the children of one directory that was asked for, largest first.
pub fn analyze_custom(at: &str, entries: &Vec<Entry>, home: &Option<String>) -> (r: Vec<Anomaly>)
    requires
        scan::bytes_of_all(entries@) <= u64::MAX,
    ensures
        order::views(r@) == order::ordered(
            anomaly::anomalies_in(
                "custom"@,
                anomaly::dirs_of(at@, entries@),
                CUSTOM_FLOOR as nat,
                text::opt_text(*home),
            ),
            anomaly::larger_anomaly(),
        ),
{
    sort_anomalies(analyze_container("custom", at, entries, CUSTOM_FLOOR, home))
}

} // verus!
