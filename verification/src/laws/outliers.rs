//! Outliers among siblings.

use vstd::prelude::*;

use crate::anomaly;
use crate::anomaly::{AnomalyView, Container};
use crate::double;
use crate::double::Threshold;
use crate::order;
use crate::path;
use crate::report;
use crate::report::Ratio;
use crate::scan;
use crate::scan::{Entry, Node};

verus! {

proof fn lemma_reaches_ten(a: nat, m: nat)
    by (nonlinear_arith)
    requires
        10 * m < 0x20_0000_0000_0000,
    ensures
        a * 0x4_0000_0000_0000 >= 0x27_FFFF_FFFF_FFFF * m <==> a >= 10 * m,
{
}

proof fn lemma_reaches_three(a: nat, m: nat)
    by (nonlinear_arith)
    requires
        10 * m < 0x20_0000_0000_0000,
    ensures
        a * 0x10_0000_0000_0000 >= 0x2F_FFFF_FFFF_FFFF * m <==> a >= 3 * m,
{
}

proof fn lemma_reaches_two(a: nat, m: nat)
    by (nonlinear_arith)
    requires
        10 * m < 0x20_0000_0000_0000,
    ensures
        a * 0x20_0000_0000_0000 >= 0x3F_FFFF_FFFF_FFFF * m <==> a >= 2 * m,
{
}

proof fn lemma_reaches_quarter(a: nat, m: nat)
    by (nonlinear_arith)
    requires
        10 * m < 0x20_0000_0000_0000,
    ensures
        a * 0x100_0000_0000_0000 >= 0x3F_FFFF_FFFF_FFFF * m <==> 4 * a >= m,
{
}

/// Sizes that fit in a double with room to spare are compared as whole numbers are.
pub proof fn comparisons_are_exact(a: nat, m: nat)
    requires
        a < 0x20_0000_0000_0000,
        10 * m < 0x20_0000_0000_0000,
    ensures
        double::ten_times(a, m) <==> a >= 10 * m,
        double::quotient_reaches(a, m, Threshold::Ten) <==> a >= 10 * m,
        double::quotient_reaches(a, m, Threshold::Three) <==> a >= 3 * m,
        double::quotient_reaches(a, m, Threshold::Two) <==> a >= 2 * m,
        double::quotient_reaches(a, m, Threshold::Quarter) <==> 4 * a >= m,
{
    double::small_counts_are_exact(a);
    double::small_counts_are_exact(m);
    double::small_counts_are_exact(10 * m);
    lemma_reaches_ten(a, m);
    lemma_reaches_three(a, m);
    lemma_reaches_two(a, m);
    lemma_reaches_quarter(a, m);
}

/// Rounding to a double is off by no more than half of the distance between neighbours, which
/// leaves 53 bits.
pub proof fn rounding_goes_to_the_nearest(n: nat)
    ensures
        double::nearest(n) % double::spacing(n) == 0,
        2 * double::nearest(n) <= 2 * n + double::spacing(n),
        2 * n <= 2 * double::nearest(n) + double::spacing(n),
        n < 0x20_0000_0000_0000 ==> double::spacing(n) == 1,
        n >= 0x20_0000_0000_0000 ==> 0x10_0000_0000_0000 * double::spacing(n) <= n
            < 0x20_0000_0000_0000 * double::spacing(n),
    decreases n,
{
    lemma_spacing(n);
    let d = double::spacing(n);
    let q = n / d;
    let r = n % d;
    vstd::arithmetic::div_mod::lemma_fundamental_div_mod(n as int, d as int);
    vstd::arithmetic::div_mod::lemma_mod_bound(n as int, d as int);
    let k = double::round_half_even(n, d);
    assert(k * d == d * k) by (nonlinear_arith);
    assert(d * (q + 1) == d * q + d) by (nonlinear_arith);
    vstd::arithmetic::div_mod::lemma_mod_multiples_basic(k as int, d as int);
}

proof fn lemma_spacing(n: nat)
    ensures
        double::spacing(n) >= 1,
        n < 0x20_0000_0000_0000 ==> double::spacing(n) == 1,
        n >= 0x20_0000_0000_0000 ==> 0x10_0000_0000_0000 * double::spacing(n) <= n
            < 0x20_0000_0000_0000 * double::spacing(n),
    decreases n,
{
    if n >= 0x20_0000_0000_0000 {
        lemma_spacing(n / 2);
    }
}

/// A child stands out exactly where it reaches the floor and is at least ten times the median,
/// or the median is nothing.
pub proof fn outliers_are_ten_times_the_median(bytes: nat, med: nat, floor: nat)
    requires
        bytes < 0x20_0000_0000_0000,
        10 * med < 0x20_0000_0000_0000,
    ensures
        anomaly::stands_out(bytes, med, floor) <==> bytes >= floor && (med == 0 || bytes >= 10
            * med),
{
    comparisons_are_exact(bytes, med);
}

/// The anomalies among some children are those that stand out, in order; each has the zone, the
/// name, the path and the size of its child, the median, the number of siblings, and the ratio
/// to the median where that is not nothing, and is classed and graded by its path and size.
pub proof fn anomalies_are_the_outliers(
    zone: Seq<char>,
    dirs: Seq<(Seq<char>, nat)>,
    dir: (Seq<char>, nat),
    med: nat,
    siblings: nat,
    floor: nat,
    home: Option<Seq<char>>,
)
    ensures
        anomaly::anomalies_among(zone, Seq::empty(), med, siblings, floor, home).len() == 0,
        ({
            let before = anomaly::anomalies_among(zone, dirs, med, siblings, floor, home);
            let now = anomaly::anomalies_among(zone, dirs.push(dir), med, siblings, floor, home);
            if anomaly::stands_out(dir.1, med, floor) {
                let a = now.last();
                &&& now.len() == before.len() + 1
                &&& now.drop_last() == before
                &&& a.zone == zone
                &&& path::file_name_of(dir.0) is Some ==> a.name == path::file_name_of(
                    dir.0,
                ).unwrap()
                &&& path::file_name_of(dir.0) is None ==> a.name.len() == 0
                &&& a.path == dir.0
                &&& a.bytes == dir.1
                &&& a.kind == anomaly::kind_of(dir.0, home)
                &&& a.median_bytes == med
                &&& a.ratio is None <==> med == 0
                &&& a.ratio matches Some(r) ==> r.part == dir.1 as u64 && r.whole == med as u64
                &&& a.siblings == siblings
                &&& a.severity == anomaly::severity_of(a.kind, dir.1)
            } else {
                now == before
            }
        }),
{
    assert(dirs.push(dir).drop_last() =~= dirs);
    let before = anomaly::anomalies_among(zone, dirs, med, siblings, floor, home);
    let now = anomaly::anomalies_among(zone, dirs.push(dir), med, siblings, floor, home);
    if anomaly::stands_out(dir.1, med, floor) {
        assert(now.drop_last() =~= before);
    }
}

/// One child alone is never an outlier; two or more are held against the median of them all.
pub proof fn siblings_are_held_against_their_median(
    zone: Seq<char>,
    dirs: Seq<(Seq<char>, nat)>,
    floor: nat,
    home: Option<Seq<char>>,
)
    ensures
        dirs.len() < 2 ==> anomaly::anomalies_in(zone, dirs, floor, home).len() == 0,
        dirs.len() >= 2 ==> anomaly::anomalies_in(zone, dirs, floor, home)
            == anomaly::anomalies_among(
            zone,
            dirs,
            anomaly::median(dirs.map_values(|d: (Seq<char>, nat)| d.1 as u64)),
            dirs.len(),
            floor,
            home,
        ),
{
    assert(anomaly::sizes_of(dirs) =~= dirs.map_values(|d: (Seq<char>, nat)| d.1 as u64));
}

/// The median is the middle one of the sizes put in order, or the mean of the two in the
/// middle, rounded down.
pub proof fn the_median_is_in_the_middle(sizes: Seq<u64>)
    ensures
        sizes.len() == 0 ==> anomaly::median(sizes) == 0,
        exists|s: Seq<u64>|
            {
                &&& #[trigger] s.to_multiset() == sizes.to_multiset()
                &&& s.len() == sizes.len()
                &&& forall|i: int, j: int| 0 <= i < j < s.len() ==> s[i] <= s[j]
                &&& s.len() % 2 == 1 ==> anomaly::median(sizes) == s[(s.len() / 2) as int]
                &&& s.len() > 0 && s.len() % 2 == 0 ==> 2 * anomaly::median(sizes) <= s[s.len() / 2
                    - 1] + s[(s.len() / 2) as int] < 2 * anomaly::median(sizes) + 2
            },
{
    let s = order::ordered(sizes, anomaly::smaller());
    order::ordering_keeps_items(sizes, anomaly::smaller());
    order::ordering_puts_in_order(sizes, anomaly::smaller());
    assert forall|i: int, j: int| 0 <= i < j < s.len() implies s[i] <= s[j] by {
        assert(!anomaly::smaller()(s[j], s[i]));
    }
    assert(s.to_multiset() == sizes.to_multiset());
}

/// The directories of a container are its entries that are directories, in order, each with
/// its path in the container and its size; files and links are none.
pub proof fn containers_are_read_by_their_directories(
    container: Seq<char>,
    entries: Seq<Entry>,
    e: Entry,
)
    ensures
        anomaly::dirs_of(container, Seq::empty()).len() == 0,
        e.node is Dir ==> anomaly::dirs_of(container, entries.push(e)) == anomaly::dirs_of(
            container,
            entries,
        ).push((path::joined_path(container, e.name@), scan::bytes_of(e.node))),
        !(e.node is Dir) ==> anomaly::dirs_of(container, entries.push(e)) == anomaly::dirs_of(
            container,
            entries,
        ),
{
    assert(entries.push(e).drop_last() =~= entries);
}

/// The anomalies of a zone are those of each of its containers, and those of all zones are
/// those of each zone, none below the floor of its zone in megabytes.
pub proof fn every_container_of_every_zone_is_searched(
    zone: (Seq<char>, Seq<char>, u64),
    containers: Seq<Container>,
    c: Container,
    zones: Seq<(Seq<char>, Seq<char>, u64)>,
    all: Seq<Vec<Container>>,
    home: Option<Seq<char>>,
)
    requires
        zone.2 <= 1_000_000,
    ensures
        anomaly::anomalies_at(zone, Seq::empty(), home).len() == 0,
        anomaly::anomalies_at(zone, containers.push(c), home) == anomaly::anomalies_at(
            zone,
            containers,
            home,
        ) + anomaly::anomalies_in(
            zone.0,
            anomaly::dirs_of(c.path@, c.entries@),
            (zone.2 * 1_048_576) as nat,
            home,
        ),
        anomaly::anomalies_of(Seq::empty(), all, home).len() == 0,
        anomaly::anomalies_of(zones.push(zone), all, home) == anomaly::anomalies_of(
            zones,
            all,
            home,
        ) + anomaly::anomalies_at(zone, all[zones.len() as int]@, home),
{
    assert(containers.push(c).drop_last() =~= containers);
    assert(zones.push(zone).drop_last() =~= zones);
    assert(report::megabytes(zone.2 as nat) == zone.2 * 1_048_576);
}

/// Megabytes are counted in bytes, as far as 64 bits go.
pub proof fn megabytes_are_bytes(mb: nat)
    ensures
        mb < 17_592_186_044_416 ==> report::megabytes(mb) == 1_048_576 * mb,
        mb >= 17_592_186_044_416 ==> report::megabytes(mb) == 18_446_744_073_709_551_615,
{
}

/// The population of the zones is every directory of every container of every zone, each with
/// the name of its zone, its path and its size.
pub proof fn every_child_of_every_zone_is_counted(
    zone: (Seq<char>, Seq<char>, u64),
    containers: Seq<Container>,
    c: Container,
    zones: Seq<(Seq<char>, Seq<char>, u64)>,
    all: Seq<Vec<Container>>,
    i: int,
)
    requires
        0 <= i < anomaly::dirs_of(c.path@, c.entries@).len(),
    ensures
        anomaly::population_at(zone.0, Seq::empty()).len() == 0,
        anomaly::population(Seq::empty(), all).len() == 0,
        ({
            let dirs = anomaly::dirs_of(c.path@, c.entries@);
            let before = anomaly::population_at(zone.0, containers);
            let now = anomaly::population_at(zone.0, containers.push(c));
            &&& now.len() == before.len() + dirs.len()
            &&& now.take(before.len() as int) == before
            &&& now[before.len() + i] == (zone.0, dirs[i].0, dirs[i].1)
        }),
        anomaly::population(zones.push(zone), all) == anomaly::population(zones, all)
            + anomaly::population_at(zone.0, all[zones.len() as int]@),
{
    assert(containers.push(c).drop_last() =~= containers);
    assert(zones.push(zone).drop_last() =~= zones);
    let before = anomaly::population_at(zone.0, containers);
    let now = anomaly::population_at(zone.0, containers.push(c));
    assert(now.take(before.len() as int) =~= before);
}

/// The floor of every zone lies between 200 and 2000 MB.
pub proof fn zones_have_floors(i: int)
    requires
        0 <= i < anomaly::zones().len(),
    ensures
        200 <= anomaly::zones()[i].2 <= 2000,
{
}

} // verus!
