//! Growth between snapshots, and typical sizes.

use vstd::prelude::*;

use crate::anomaly;
use crate::baseline;
use crate::baseline::{GrowthView, Snapshot};
use crate::baselines;
use crate::baselines::Baseline;
use crate::laws::outliers;
use crate::path;
use crate::report;

verus! {

/// A folder grew notably where it gained at least 500 MB and at least a quarter of what it
/// was; a new one is notable from 500 MB on.
pub proof fn notable_growth_is_large_and_a_quarter(before: u64, now: nat)
    requires
        before < 0x2_0000_0000_0000,
        now < 0x2_0000_0000_0000,
    ensures
        baseline::notable(Some(before), now) <==> now >= before + 524_288_000 && 4 * (now - before)
            >= before,
        baseline::notable(None, now) <==> now >= 524_288_000,
{
    if now >= before {
        outliers::comparisons_are_exact((now - before) as nat, before as nat);
    }
}

/// The growths are those of the folders that grew notably, in order; each has the folder's
/// path, its size now and before, the difference, and is new where it had no size before.
pub proof fn growths_are_of_the_folders_that_grew(
    prior: Seq<(Seq<char>, u64)>,
    now: Seq<(Seq<char>, u64)>,
    e: (Seq<char>, u64),
    seconds: u64,
    home: Option<Seq<char>>,
)
    ensures
        baseline::growths_of(prior, Seq::empty(), seconds, home).len() == 0,
        ({
            let rest = baseline::growths_of(prior, now, seconds, home);
            let all = baseline::growths_of(prior, now.push(e), seconds, home);
            let was = baseline::size_at(prior, e.0);
            if baseline::notable(was, e.1 as nat) {
                let g = all.last();
                &&& all.len() == rest.len() + 1
                &&& all.drop_last() == rest
                &&& g.path == e.0
                &&& path::file_name_of(e.0) is Some ==> g.name == path::file_name_of(
                    e.0,
                ).unwrap()
                &&& path::file_name_of(e.0) is None ==> g.name == e.0
                &&& g.kind == anomaly::kind_of(e.0, home)
                &&& g.current == e.1
                &&& g.previous == was
                &&& g.seconds == seconds
                &&& g.is_new <==> was is None
                &&& was is None ==> g.delta == g.current && g.growth is None
                &&& was matches Some(p) ==> {
                    &&& g.delta + p == g.current
                    &&& g.growth matches Some(r) && r.part == g.delta && r.whole == p
                }
            } else {
                all == rest
            }
        }),
{
    assert(now.push(e).drop_last() =~= now);
    let rest = baseline::growths_of(prior, now, seconds, home);
    let all = baseline::growths_of(prior, now.push(e), seconds, home);
    if baseline::notable(baseline::size_at(prior, e.0), e.1 as nat) {
        assert(all.drop_last() =~= rest);
    }
}

/// A folder that did not gain anything is never reported to have grown.
pub proof fn what_shrank_is_not_reported(
    prior: Seq<(Seq<char>, u64)>,
    now: Seq<(Seq<char>, u64)>,
    seconds: u64,
    home: Option<Seq<char>>,
    k: int,
)
    requires
        0 <= k < baseline::growths_of(prior, now, seconds, home).len(),
    ensures
        ({
            let g = baseline::growths_of(prior, now, seconds, home)[k];
            &&& now.contains((g.path, g.current))
            &&& g.delta >= 524_288_000
            &&& g.previous matches Some(p) ==> p < g.current
        }),
    decreases now.len(),
{
    let rest = baseline::growths_of(prior, now.drop_last(), seconds, home);
    assert(now[now.len() - 1] == now.last());
    if k < rest.len() {
        what_shrank_is_not_reported(prior, now.drop_last(), seconds, home, k);
        let g = rest[k];
        let i = choose|i: int|
            0 <= i < now.drop_last().len() && now.drop_last()[i] == (g.path, g.current);
        assert(now[i] == (g.path, g.current));
    }
}

/// The size of a path is the one recorded last; a path that was not recorded has none.
pub proof fn the_last_size_counts(
    sizes: Seq<(Seq<char>, u64)>,
    p: Seq<char>,
    q: Seq<char>,
    bytes: u64,
)
    ensures
        baseline::size_at(Seq::empty(), p) is None,
        baseline::size_at(sizes.push((p, bytes)), p) == Some(bytes),
        q != p ==> baseline::size_at(sizes.push((p, bytes)), q) == baseline::size_at(sizes, q),
{
    assert(sizes.push((p, bytes)).drop_last() =~= sizes);
}

/// The seconds between two snapshots carry one to the other; there are none backwards.
pub proof fn time_runs_forward(from: u64, to: u64)
    ensures
        from <= to ==> from + baseline::elapsed(from, to) == to,
        to <= from ==> baseline::elapsed(from, to) == 0,
{
}

/// The history keeps its newest 30 snapshots, in order, and drops only what is older.
pub proof fn the_newest_are_kept(history: Seq<Snapshot>)
    ensures
        baseline::pruned(history).len() <= 30,
        baseline::pruned(history).len() == history.len() || baseline::pruned(history).len() == 30,
        exists|dropped: Seq<Snapshot>| #[trigger]
            (dropped + baseline::pruned(history)) == history,
        history.len() > 0 ==> baseline::pruned(history).last() == history.last(),
{
    let n = history.len() - baseline::pruned(history).len();
    assert(history.take(n) + baseline::pruned(history) =~= history);
}

/// The snapshot holds each child as it was measured.
pub proof fn children_are_measured(children: Seq<anomaly::ZoneChild>, i: int)
    requires
        0 <= i < children.len(),
    ensures
        baseline::measured(children).len() == children.len(),
        baseline::measured(children)[i].0 == children[i].path@,
        baseline::measured(children)[i].1 == children[i].bytes,
{
}

/// A folder is above its typical size only by a baseline of at least three machines with a
/// typical size, and then exactly from three times that size on.
pub proof fn above_typical_is_three_times(bytes: nat, b: Baseline)
    requires
        bytes < 0x2_0000_0000_0000,
        b.typical_mb < 0x2000_0000,
    ensures
        baselines::above_typical(bytes, b) <==> b.observations >= 3 && b.typical_mb > 0 && bytes
            >= 3 * (b.typical_mb * 1_048_576),
        baselines::usable(b) <==> b.observations >= 3,
        baselines::ratio_of(bytes, b) is None <==> b.typical_mb == 0,
        baselines::ratio_of(bytes, b) matches Some(r) ==> r.part == bytes && r.whole
            == b.typical_mb * 1_048_576,
{
    outliers::megabytes_are_bytes(b.typical_mb as nat);
    outliers::comparisons_are_exact(bytes, report::megabytes(b.typical_mb as nat));
}

/// A baseline is for the folders of its zone and of its name, whatever the case of its ASCII
/// letters.
pub proof fn a_baseline_is_for_its_folder(b: Baseline, name: Seq<char>, zone: Seq<char>)
    ensures
        baselines::is_for(b, b.name@, b.zone@),
        baselines::is_for(b, name, zone) ==> zone == b.zone@ && name.len() == b.name@.len(),
        name.len() == b.name@.len() && zone == b.zone@ && (forall|i: int|
            0 <= i < name.len() ==> #[trigger] name[i] == b.name@[i] || (name[i] as u32 + 32
                == b.name@[i] as u32 && 65 <= name[i] as u32 <= 90) || (b.name@[i] as u32 + 32
                == name[i] as u32 && 65 <= b.name@[i] as u32 <= 90)) ==> baselines::is_for(
            b,
            name,
            zone,
        ),
{
}

/// Of several baselines for a folder the first counts.
pub proof fn the_first_baseline_counts(
    bs: Seq<Baseline>,
    name: Seq<char>,
    zone: Seq<char>,
    i: int,
    j: int,
)
    requires
        baselines::first_for(bs, name, zone, i),
        0 <= j < bs.len(),
        baselines::is_for(bs[j], name, zone),
    ensures
        0 <= i <= j,
        baselines::is_for(bs[i], name, zone),
{
}

} // verus!
