//! The differentiated layer: leak signatures.
//!
//! Signatures are data. A signature fires only when a path that it names exceeds
//! `baseline_mb`, so it reports a *leak*, not just a big folder.

use vstd::prelude::*;

use crate::double;
use crate::double::{reaches, Threshold};
use crate::order;
use crate::order::sort_by_view;
use crate::report;
use crate::report::{mb_bytes, Finding, Severity};
use crate::scan;
use crate::scan::{count_matching_files, is_pattern, measure_path, Node};
use crate::text;
use crate::text::{copy_opt, eq_ignore_ascii_case};

verus! {

/// A rule for a known leak.
#[derive(Debug)]
pub struct Signature {
    pub name: String,
    pub description: String,
    /// May contain `~`, `$VARS`, and glob wildcards.
    pub path: String,
    pub file_pattern: Option<String>,
    pub owner: Option<String>,
    pub baseline_mb: u64,
    pub severity: Option<String>,
    pub root_cause: Option<String>,
    pub prevention: Option<String>,
    pub safe_delete: Option<String>,
}

/// A path that a signature's pattern named, with what stands there.
pub struct Hit {
    pub path: String,
    pub node: Node,
}

/// What a finding says.
pub struct FindingView {
    pub name: Seq<char>,
    pub description: Seq<char>,
    pub path: Seq<char>,
    pub bytes: nat,
    pub baseline_bytes: nat,
    pub owner: Option<Seq<char>>,
    pub severity: Severity,
    pub root_cause: Option<Seq<char>>,
    pub prevention: Option<Seq<char>>,
    pub safe_delete: Seq<char>,
    pub file_matches: Option<u64>,
}

impl View for Finding {
    type V = FindingView;

    open spec fn view(&self) -> FindingView {
        FindingView {
            name: self.name@,
            description: self.description@,
            path: self.path@,
            bytes: self.bytes as nat,
            baseline_bytes: self.baseline_bytes as nat,
            owner: text::opt_text(self.owner),
            severity: self.severity,
            root_cause: text::opt_text(self.root_cause),
            prevention: text::opt_text(self.prevention),
            safe_delete: self.safe_delete@,
            file_matches: self.file_matches,
        }
    }
}

/// The severity that a signature names, read without regard to case.
pub open spec fn named_severity(level: Seq<char>) -> Option<Severity> {
    if text::same_but_ascii_case(level, "critical"@) || text::same_but_ascii_case(level, "crit"@) {
        Some(Severity::Critical)
    } else if text::same_but_ascii_case(level, "warn"@) || text::same_but_ascii_case(
        level,
        "warning"@,
    ) {
        Some(Severity::Warn)
    } else if text::same_but_ascii_case(level, "info"@) {
        Some(Severity::Info)
    } else {
        None
    }
}

/// The severity by size: ten times the baseline is critical, twice a warning.
pub open spec fn severity_by_size(bytes: nat, baseline: nat) -> Severity {
    let whole = if baseline == 0 { 1 } else { baseline };
    if double::quotient_reaches(bytes, whole, Threshold::Ten) {
        Severity::Critical
    } else if double::quotient_reaches(bytes, whole, Threshold::Two) {
        Severity::Warn
    } else {
        Severity::Info
    }
}

/// The severity of a leak: the one the signature names, else by size.
pub open spec fn leak_severity(level: Option<Seq<char>>, bytes: nat, baseline: nat) -> Severity {
    match level {
        Some(l) => match named_severity(l) {
            Some(s) => s,
            None => severity_by_size(bytes, baseline),
        },
        None => severity_by_size(bytes, baseline),
    }
}

/// The severity of a leak of `bytes` over a baseline.
pub fn severity_for(signature: &Signature, bytes: u64, baseline_bytes: u64) -> (r: Severity)
    ensures
        r == leak_severity(
            text::opt_text(signature.severity),
            bytes as nat,
            baseline_bytes as nat,
        ),
{
    if let Some(level) = &signature.severity {
        let l = level.as_str();
        if eq_ignore_ascii_case(l, "critical") || eq_ignore_ascii_case(l, "crit") {
            return Severity::Critical;
        }
        if eq_ignore_ascii_case(l, "warn") || eq_ignore_ascii_case(l, "warning") {
            return Severity::Warn;
        }
        if eq_ignore_ascii_case(l, "info") {
            return Severity::Info;
        }
    }
    let whole: u64 = if baseline_bytes == 0 {
        1
    } else {
        baseline_bytes
    };
    if reaches(bytes, whole, Threshold::Ten) {
        Severity::Critical
    } else if reaches(bytes, whole, Threshold::Two) {
        Severity::Warn
    } else {
        Severity::Info
    }
}

/// The command that removes a path, as it is shown.
pub open spec fn remove_command(path: Seq<char>) -> Seq<char> {
    "rm -rf \""@ + path + "\""@
}

/// The number of matching files, where the signature has a pattern that can be used.
pub open spec fn matches_of(pattern: Option<Seq<char>>, node: Node) -> Option<u64> {
    match pattern {
        Some(p) => if scan::pattern_valid(p) {
            Some(scan::matching(node, p) as u64)
        } else {
            None
        },
        None => None,
    }
}

/// The finding for a path that exceeded the baseline.
pub open spec fn finding_of(signature: Signature, hit: Hit) -> FindingView {
    let bytes = scan::bytes_of(hit.node);
    let baseline = report::megabytes(signature.baseline_mb as nat);
    FindingView {
        name: signature.name@,
        description: signature.description@,
        path: hit.path@,
        bytes,
        baseline_bytes: baseline,
        owner: text::opt_text(signature.owner),
        severity: leak_severity(text::opt_text(signature.severity), bytes, baseline),
        root_cause: text::opt_text(signature.root_cause),
        prevention: text::opt_text(signature.prevention),
        safe_delete: match signature.safe_delete {
            Some(c) => c@,
            None => remove_command(hit.path@),
        },
        file_matches: matches_of(text::opt_text(signature.file_pattern), hit.node),
    }
}

/// Whether a signature fires on a hit.
pub open spec fn fires(signature: Signature, hit: Hit) -> bool {
    scan::bytes_of(hit.node) > report::megabytes(signature.baseline_mb as nat)
}

/// The findings of one signature.
pub open spec fn findings_at(signature: Signature, hits: Seq<Hit>) -> Seq<FindingView>
    decreases hits.len(),
{
    if hits.len() == 0 {
        Seq::empty()
    } else {
        let rest = findings_at(signature, hits.drop_last());
        if fires(signature, hits.last()) {
            rest.push(finding_of(signature, hits.last()))
        } else {
            rest
        }
    }
}

/// The findings of the first signatures, each over its hits.
pub open spec fn findings_of(signatures: Seq<Signature>, hits: Seq<Vec<Hit>>) -> Seq<FindingView>
    decreases signatures.len(),
{
    if signatures.len() == 0 {
        Seq::empty()
    } else {
        findings_of(signatures.drop_last(), hits) + findings_at(
            signatures.last(),
            hits[signatures.len() - 1]@,
        )
    }
}

/// Largest first.
pub open spec fn larger_finding() -> spec_fn(FindingView, FindingView) -> bool {
    |a: FindingView, b: FindingView| a.bytes > b.bytes
}

/// Whether everything at a hit can be counted.
pub open spec fn countable(hit: Hit) -> bool {
    scan::bytes_of(hit.node) <= u64::MAX && scan::files_of(hit.node) <= u64::MAX
}

fn finding_is_larger(a: &Finding, b: &Finding) -> (r: bool)
    ensures
        r == (a.bytes > b.bytes),
{
    a.bytes > b.bytes
}

fn make_finding(signature: &Signature, hit: &Hit, bytes: u64, baseline_bytes: u64) -> (r: Finding)
    requires
        countable(*hit),
        bytes == scan::bytes_of(hit.node),
        baseline_bytes == report::megabytes(signature.baseline_mb as nat),
    ensures
        r@ == finding_of(*signature, *hit),
{
    let file_matches = match &signature.file_pattern {
        Some(p) => if is_pattern(p.as_str()) {
            Some(count_matching_files(&hit.node, p.as_str()))
        } else {
            None
        },
        None => None,
    };
    let safe_delete = match &signature.safe_delete {
        Some(c) => c.clone(),
        None => {
            let mut c = "rm -rf \"".to_owned();
            c.append(hit.path.as_str());
            c.append("\"");
            c
        },
    };
    Finding {
        name: signature.name.clone(),
        description: signature.description.clone(),
        path: hit.path.clone(),
        bytes,
        baseline_bytes,
        owner: copy_opt(&signature.owner),
        severity: severity_for(signature, bytes, baseline_bytes),
        root_cause: copy_opt(&signature.root_cause),
        prevention: copy_opt(&signature.prevention),
        safe_delete,
        file_matches,
    }
}

/// Evaluates every signature over the paths that its pattern named, returning the findings
/// of those that fired, largest first.
pub fn evaluate_signatures(signatures: &Vec<Signature>, hits: &Vec<Vec<Hit>>) -> (r: Vec<Finding>)
    requires
        hits@.len() == signatures@.len(),
        forall|i: int, j: int|
            0 <= i < hits@.len() && 0 <= j < hits@[i]@.len() ==> countable(#[trigger] hits@[i]@[j]),
    ensures
        order::views(r@) == order::ordered(
            findings_of(signatures@, hits@),
            larger_finding(),
        ),
{
    let mut found: Vec<Finding> = Vec::new();
    let mut i: usize = 0;
    assert(signatures@.take(0) =~= Seq::<Signature>::empty());
    assert(order::views(found@) =~= Seq::<FindingView>::empty());
    while i < signatures.len()
        invariant
            i <= signatures@.len(),
            hits@.len() == signatures@.len(),
            forall|i: int, j: int|
                0 <= i < hits@.len() && 0 <= j < hits@[i]@.len() ==> countable(
                    #[trigger] hits@[i]@[j],
                ),
            order::views(found@) == findings_of(signatures@.take(i as int), hits@),
        decreases signatures@.len() - i,
    {
        let signature = &signatures[i];
        let ghost before = order::views(found@);
        let here = &hits[i];
        let baseline_bytes = mb_bytes(signature.baseline_mb);
        let mut j: usize = 0;
        proof {
            assert(here@.take(0) =~= Seq::<Hit>::empty());
            assert(before + findings_at(*signature, here@.take(0)) =~= before);
        }
        while j < here.len()
            invariant
                j <= here@.len(),
                forall|j: int| 0 <= j < here@.len() ==> countable(#[trigger] here@[j]),
                baseline_bytes == report::megabytes(signature.baseline_mb as nat),
                order::views(found@) == before + findings_at(*signature, here@.take(j as int)),
            decreases here@.len() - j,
        {
            proof {
                assert(here@.take(j + 1).drop_last() =~= here@.take(j as int));
                assert(here@.take(j + 1).last() == here@[j as int]);
            }
            let bytes = measure_path(&here[j].node);
            if bytes > baseline_bytes {
                let f = make_finding(signature, &here[j], bytes, baseline_bytes);
                proof {
                    order::lemma_views_push(found@, f);
                    assert((before + findings_at(*signature, here@.take(j as int))).push(f@)
                        =~= before + findings_at(*signature, here@.take(j + 1)));
                }
                found.push(f);
            }
            j += 1;
        }
        proof {
            assert(here@.take(here@.len() as int) =~= here@);
            assert(signatures@.take(i + 1).drop_last() =~= signatures@.take(i as int));
            assert(signatures@.take(i + 1).last() == *signature);
        }
        i += 1;
    }
    assert(signatures@.take(signatures@.len() as int) =~= signatures@);
    sort_by_view(found, finding_is_larger, Ghost(larger_finding()))
}

/// A severity that a signature names, in any case, stands whatever the size.
pub proof fn named_severity_overrides_size(level: Seq<char>, bytes: nat, baseline: nat)
    requires
        named_severity(level) is Some,
    ensures
        leak_severity(Some(level), bytes, baseline) == named_severity(level).unwrap(),
{
}

/// A path at or below its baseline is never a finding, one above it always is.
pub proof fn a_signature_fires_above_its_baseline(signature: Signature, hits: Seq<Hit>, hit: Hit)
    ensures
        findings_at(signature, hits.push(hit)) == if scan::bytes_of(hit.node) > report::megabytes(
            signature.baseline_mb as nat,
        ) {
            findings_at(signature, hits).push(finding_of(signature, hit))
        } else {
            findings_at(signature, hits)
        },
{
    assert(hits.push(hit).drop_last() =~= hits);
}

/// Findings come largest first, none is lost, and ties keep their order.
pub proof fn findings_come_largest_first(s: Seq<FindingView>, x: FindingView)
    ensures
        order::in_order(order::ordered(s, larger_finding()), larger_finding()),
        order::ordered(s, larger_finding()).to_multiset() == s.to_multiset(),
        order::tied_with(order::ordered(s, larger_finding()), x, larger_finding()) == order::tied_with(
            s,
            x,
            larger_finding(),
        ),
{
    order::ordering_puts_in_order(s, larger_finding());
    order::ordering_keeps_items(s, larger_finding());
    order::ordering_is_stable(s, x, larger_finding());
}

} // verus!
