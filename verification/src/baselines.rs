//! Curated per-app size baselines.
//!
//! `anomalies` shows the biggest same-class folders; a baseline answers whether that size is
//! normal for that app. A baseline is only as good as its sample, so `observations` records
//! how many machines it came from. Below [`MIN_OBSERVATIONS`] an entry accumulates but never
//! flags anyone: one machine's size is an observation, not a typical.

use vstd::prelude::*;

use crate::double;
use crate::double::{reaches, Threshold};
use crate::report;
use crate::report::{mb_bytes, Ratio};
use crate::text;
use crate::text::{eq_ignore_ascii_case, same_text};

verus! {

/// A baseline needs this many independent machines before it is trusted to flag anyone.
pub const MIN_OBSERVATIONS: u32 = 3;

/// A typical size for one app's folder in one zone.
#[derive(Debug)]
pub struct Baseline {
    /// Folder name to match (case-insensitive).
    pub name: String,
    /// Zone name (e.g. "Application Support").
    pub zone: String,
    /// Typical observed size, in MB.
    pub typical_mb: u64,
    /// How many machines contributed this number.
    pub observations: u32,
    pub note: Option<String>,
}

/// How many machines a baseline that does not say came from.
pub fn one() -> (r: u32)
    ensures
        r == 1,
{
    1
}

/// Whether a baseline is the one for a folder of that name in that zone.
pub open spec fn is_for(b: Baseline, name: Seq<char>, zone: Seq<char>) -> bool {
    b.zone@ == zone && text::same_but_ascii_case(b.name@, name)
}

/// Whether the first baseline for a folder is the one at `i`.
pub open spec fn first_for(bs: Seq<Baseline>, name: Seq<char>, zone: Seq<char>, i: int) -> bool {
    &&& 0 <= i < bs.len()
    &&& is_for(bs[i], name, zone)
    &&& forall|j: int| 0 <= j < i ==> !is_for(#[trigger] bs[j], name, zone)
}

/// The first baseline for a folder `name` in `zone`, if one has been contributed.
pub fn lookup_baseline<'a>(baselines: &'a Vec<Baseline>, name: &str, zone: &str) -> (r: Option<
    &'a Baseline,
>)
    ensures
        match r {
            Some(b) => exists|i: int|
                #[trigger] first_for(baselines@, name@, zone@, i) && *b == baselines@[i],
            None => forall|i: int|
                0 <= i < baselines@.len() ==> !is_for(#[trigger] baselines@[i], name@, zone@),
        },
{
    let mut i: usize = 0;
    while i < baselines.len()
        invariant
            i <= baselines@.len(),
            forall|j: int| 0 <= j < i ==> !is_for(#[trigger] baselines@[j], name@, zone@),
        decreases baselines@.len() - i,
    {
        if same_text(baselines[i].zone.as_str(), zone) && eq_ignore_ascii_case(
            baselines[i].name.as_str(),
            name,
        ) {
            assert(first_for(baselines@, name@, zone@, i as int));
            return Some(&baselines[i]);
        }
        i += 1;
    }
    None
}

/// Bytes against the typical size; nothing where the baseline says 0 MB.
pub open spec fn ratio_of(bytes: nat, baseline: Baseline) -> Option<Ratio> {
    let typical = report::megabytes(baseline.typical_mb as nat);
    if typical == 0 {
        None
    } else {
        Some(Ratio { part: bytes as u64, whole: typical as u64 })
    }
}

/// How many times its typical size this folder is. `None` when the baseline says 0 MB (no
/// meaningful ratio).
pub fn baseline_ratio(bytes: u64, baseline: &Baseline) -> (r: Option<Ratio>)
    ensures
        r == ratio_of(bytes as nat, *baseline),
{
    let typical = mb_bytes(baseline.typical_mb);
    if typical == 0 {
        return None;
    }
    Some(Ratio { part: bytes, whole: typical })
}

/// Whether enough machines agree.
pub open spec fn usable(baseline: Baseline) -> bool {
    baseline.observations >= MIN_OBSERVATIONS
}

/// True once enough machines agree for this baseline to judge others.
pub fn is_usable(baseline: &Baseline) -> (r: bool)
    ensures
        r == usable(*baseline),
{
    baseline.observations >= MIN_OBSERVATIONS
}

/// Whether a folder is at least three times its typical size, by a usable baseline.
pub open spec fn above_typical(bytes: nat, baseline: Baseline) -> bool {
    usable(baseline) && match ratio_of(bytes, baseline) {
        Some(r) => double::quotient_reaches(r.part as nat, r.whole as nat, Threshold::Three),
        None => false,
    }
}

/// True when the folder is far enough above typical to be worth calling out. Never for a
/// baseline with too few observations.
pub fn is_above_typical(bytes: u64, baseline: &Baseline) -> (r: bool)
    ensures
        r == above_typical(bytes as nat, *baseline),
{
    if !is_usable(baseline) {
        return false;
    }
    match baseline_ratio(bytes, baseline) {
        Some(r) => reaches(r.part, r.whole, Threshold::Three),
        None => false,
    }
}

/// Too few machines never flag anyone, whatever the size.
pub proof fn few_observations_never_flag(bytes: nat, baseline: Baseline)
    requires
        baseline.observations < MIN_OBSERVATIONS,
    ensures
        !above_typical(bytes, baseline),
{
}

} // verus!
