//! Known leaks and how much they matter.

use vstd::prelude::*;

use crate::double;
use crate::laws::outliers;
use crate::report;
use crate::report::Severity;
use crate::scan;
use crate::signatures;
use crate::signatures::{Hit, Signature};
use crate::text;

verus! {

/// By size alone a leak is critical from ten times its baseline on and a warning from twice
/// on; a baseline of nothing counts as one byte.
pub proof fn severity_grows_with_size(bytes: nat, baseline: nat)
    requires
        bytes < 0x2_0000_0000_0000,
        baseline < 0x2_0000_0000_0000,
    ensures
        baseline > 0 ==> {
            &&& signatures::severity_by_size(bytes, baseline) is Critical <==> bytes >= 10
                * baseline
            &&& signatures::severity_by_size(bytes, baseline) is Warn <==> 2 * baseline <= bytes
                < 10 * baseline
            &&& signatures::severity_by_size(bytes, baseline) is Info <==> bytes < 2 * baseline
        },
        bytes >= 10 ==> signatures::severity_by_size(bytes, 0) is Critical,
        2 <= bytes < 10 ==> signatures::severity_by_size(bytes, 0) is Warn,
        bytes < 2 ==> signatures::severity_by_size(bytes, 0) is Info,
{
    outliers::comparisons_are_exact(bytes, baseline);
    outliers::comparisons_are_exact(bytes, 1);
}

/// A severity that is named counts, whatever the size; one that is not known or not named
/// leaves it to the size.
pub proof fn named_severities_count(level: Seq<char>, bytes: nat, baseline: nat)
    ensures
        text::same_but_ascii_case(level, "critical"@) || text::same_but_ascii_case(level, "crit"@)
            ==> signatures::leak_severity(Some(level), bytes, baseline) is Critical,
        text::same_but_ascii_case(level, "warning"@) || text::same_but_ascii_case(level, "warn"@)
            ==> signatures::leak_severity(Some(level), bytes, baseline) is Warn,
        text::same_but_ascii_case(level, "info"@) ==> signatures::leak_severity(
            Some(level),
            bytes,
            baseline,
        ) is Info,
        !text::same_but_ascii_case(level, "critical"@) && !text::same_but_ascii_case(
            level,
            "crit"@,
        ) && !text::same_but_ascii_case(level, "warning"@) && !text::same_but_ascii_case(
            level,
            "warn"@,
        ) && !text::same_but_ascii_case(level, "info"@) ==> signatures::leak_severity(
            Some(level),
            bytes,
            baseline,
        ) == signatures::severity_by_size(bytes, baseline),
        signatures::leak_severity(None, bytes, baseline) == signatures::severity_by_size(
            bytes,
            baseline,
        ),
{
    reveal_strlit("critical");
    reveal_strlit("crit");
    reveal_strlit("warning");
    reveal_strlit("warn");
    reveal_strlit("info");
    if text::same_but_ascii_case(level, "crit"@) {
        assert(text::ascii_small(level[0]) == text::ascii_small("crit"@[0]));
    }
    if text::same_but_ascii_case(level, "warn"@) {
        assert(text::ascii_small(level[0]) == text::ascii_small("warn"@[0]));
    }
    if text::same_but_ascii_case(level, "info"@) {
        assert(text::ascii_small(level[0]) == text::ascii_small("info"@[0]));
    }
}

/// The findings of a signature are for the places that hold more than its baseline, in order.
/// A finding gives the place, its bytes and the baseline, and what the signature says; how to
/// remove it is what the signature says, else the removal of exactly that place.
pub proof fn findings_are_the_places_above_the_baseline(s: Signature, hits: Seq<Hit>, h: Hit)
    requires
        s.baseline_mb < 17_592_186_044_416,
    ensures
        signatures::findings_at(s, Seq::empty()).len() == 0,
        ({
            let before = signatures::findings_at(s, hits);
            let now = signatures::findings_at(s, hits.push(h));
            if scan::bytes_of(h.node) > 1_048_576 * s.baseline_mb {
                let f = now.last();
                &&& now.len() == before.len() + 1
                &&& now.drop_last() == before
                &&& f.name == s.name@
                &&& f.description == s.description@
                &&& f.path == h.path@
                &&& f.bytes == scan::bytes_of(h.node)
                &&& f.baseline_bytes == 1_048_576 * s.baseline_mb
                &&& s.owner is Some ==> f.owner == Some(s.owner.unwrap()@)
                &&& s.owner is None ==> f.owner is None
                &&& s.root_cause is Some ==> f.root_cause == Some(s.root_cause.unwrap()@)
                &&& s.root_cause is None ==> f.root_cause is None
                &&& s.prevention is Some ==> f.prevention == Some(s.prevention.unwrap()@)
                &&& s.prevention is None ==> f.prevention is None
                &&& s.severity is None ==> f.severity == signatures::leak_severity(
                    None,
                    f.bytes,
                    f.baseline_bytes,
                )
                &&& s.severity is Some ==> f.severity == signatures::leak_severity(
                    Some(s.severity.unwrap()@),
                    f.bytes,
                    f.baseline_bytes,
                )
                &&& s.safe_delete is Some ==> f.safe_delete == s.safe_delete.unwrap()@
                &&& s.safe_delete is None ==> f.safe_delete == "rm -rf \""@ + h.path@ + "\""@
                &&& s.file_pattern is None ==> f.file_matches is None
                &&& s.file_pattern matches Some(p) ==> {
                    &&& f.file_matches is Some <==> scan::pattern_valid(p@)
                    &&& f.file_matches matches Some(n) ==> n == scan::matching(h.node, p@) as u64
                }
            } else {
                now == before
            }
        }),
{
    assert(hits.push(h).drop_last() =~= hits);
    outliers::megabytes_are_bytes(s.baseline_mb as nat);
    let before = signatures::findings_at(s, hits);
    let now = signatures::findings_at(s, hits.push(h));
    if scan::bytes_of(h.node) > 1_048_576 * s.baseline_mb {
        assert(now.drop_last() =~= before);
    }
}

/// Every signature is searched for, each over its own places.
pub proof fn every_signature_is_searched_for(
    list: Seq<Signature>,
    s: Signature,
    hits: Seq<Vec<Hit>>,
)
    ensures
        signatures::findings_of(Seq::empty(), hits).len() == 0,
        signatures::findings_of(list.push(s), hits) == signatures::findings_of(list, hits)
            + signatures::findings_at(s, hits[list.len() as int]@),
{
    assert(list.push(s).drop_last() =~= list);
}

/// The highest severity of a list: critical where any is, else a warning where any is.
pub proof fn the_worst_counts(list: Seq<Severity>)
    ensures
        report::highest(list) is None <==> list.len() == 0,
        report::highest(list) == Some(Severity::Critical) <==> list.contains(Severity::Critical),
        report::highest(list) == Some(Severity::Warn) <==> list.contains(Severity::Warn)
            && !list.contains(Severity::Critical),
{
    if list.len() > 0 {
        report::highest_is_a_bound(list);
        assert forall|s: Severity| list.contains(s) implies report::rank(s) <= report::rank(
            report::highest(list).unwrap(),
        ) by {
            let i = choose|i: int| 0 <= i < list.len() && list[i] == s;
            assert(report::rank(list[i]) <= report::rank(report::highest(list).unwrap()));
        }
    }
}

/// Totals add up: of nothing it is nothing, and one more size adds its bytes.
pub proof fn totals_add_up(sizes: Seq<u64>, n: u64)
    ensures
        report::total(Seq::empty()) == 0,
        report::total(sizes.push(n)) == report::total(sizes) + n,
{
    assert(sizes.push(n).drop_last() =~= sizes);
}

/// A size is shown in whole bytes below 1024, else with one decimal in the largest unit that
/// it reaches, off by no more than half of the last digit; halfway the digit is even.
pub proof fn sizes_are_shown_in_their_unit(bytes: nat)
    requires
        bytes < 0x20_0000_0000_0000,
    ensures
        bytes < 1024 ==> report::human_text(bytes) == text::decimal(bytes) + " "@ + "B"@,
        bytes >= 1024 ==> exists|tenths: nat|
            {
                &&& report::human_text(bytes) == #[trigger] text::decimal(tenths / 10) + "."@
                    + text::decimal(tenths % 10) + " "@ + (if bytes < 1_048_576 {
                    "KB"@
                } else if bytes < 1_073_741_824 {
                    "MB"@
                } else if bytes < 1_099_511_627_776 {
                    "GB"@
                } else if bytes < 1_125_899_906_842_624 {
                    "TB"@
                } else {
                    "PB"@
                })
                &&& ({
                    let unit: nat = if bytes < 1_048_576 {
                        1024
                    } else if bytes < 1_073_741_824 {
                        1_048_576
                    } else if bytes < 1_099_511_627_776 {
                        1_073_741_824
                    } else if bytes < 1_125_899_906_842_624 {
                        1_099_511_627_776
                    } else {
                        1_125_899_906_842_624
                    };
                    &&& -unit <= 2 * (tenths * unit - 10 * bytes) <= unit
                    &&& 2 * (10 * bytes - tenths * unit) == unit || 2 * (tenths * unit - 10
                        * bytes) == unit ==> tenths % 2 == 0
                })
            },
{
    double::small_counts_are_exact(bytes);
    if bytes >= 1024 {
        let unit: nat = if bytes < 1_048_576 {
            1024
        } else if bytes < 1_073_741_824 {
            1_048_576
        } else if bytes < 1_099_511_627_776 {
            1_073_741_824
        } else if bytes < 1_125_899_906_842_624 {
            1_099_511_627_776
        } else {
            1_125_899_906_842_624
        };
        let k = report::unit_index(bytes);
        assert(unit == report::unit_size(k));
        let tenths = double::round_half_even(10 * bytes, unit);
        let q = (10 * bytes) / unit;
        let r = (10 * bytes) % unit;
        vstd::arithmetic::div_mod::lemma_fundamental_div_mod((10 * bytes) as int, unit as int);
        vstd::arithmetic::div_mod::lemma_mod_bound((10 * bytes) as int, unit as int);
        assert(q * unit == unit * q) by (nonlinear_arith);
        assert((q + 1) * unit == unit * q + unit) by (nonlinear_arith);
        assert(report::human_text(bytes) == text::decimal(tenths / 10) + "."@ + text::decimal(
            tenths % 10,
        ) + " "@ + report::unit_name(k));
    }
}

} // verus!
