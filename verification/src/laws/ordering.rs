//! Lists that come largest first.

use vstd::prelude::*;

use crate::anomaly;
use crate::baseline;
use crate::catalog;
use crate::files;
use crate::order;
use crate::scan;
use crate::signatures;
use crate::uninstall;

verus! {

/// Whether `r` holds the items of `s`, each as often, those with the larger key first, and
/// those with the same key in the order of `s`.
pub open spec fn largest_first<T>(r: Seq<T>, s: Seq<T>, key: spec_fn(T) -> nat) -> bool {
    &&& r.len() == s.len()
    &&& r.to_multiset() == s.to_multiset()
    &&& forall|i: int, j: int|
        0 <= i < j < r.len() ==> key(#[trigger] r[i]) >= key(#[trigger] r[j])
    &&& forall|x: T| #[trigger]
        with_key(r, key, key(x)) == with_key(s, key, key(x))
}

/// The items with the key `k`, in their order.
pub open spec fn with_key<T>(s: Seq<T>, key: spec_fn(T) -> nat, k: nat) -> Seq<T> {
    s.filter(|y: T| key(y) == k)
}

proof fn lemma_tied<T>(
    s: Seq<T>,
    x: T,
    before: spec_fn(T, T) -> bool,
    key: spec_fn(T) -> nat,
)
    requires
        forall|a: T, b: T| #[trigger] before(a, b) == (key(a) > key(b)),
    ensures
        order::tied_with(s, x, before) == with_key(s, key, key(x)),
    decreases s.len(),
{
    reveal(Seq::filter);
    if s.len() > 0 {
        lemma_tied(s.drop_last(), x, before, key);
        assert(before(x, s.last()) == (key(x) > key(s.last())));
        assert(before(s.last(), x) == (key(s.last()) > key(x)));
    }
}

/// Ordering by a key puts the largest first.
pub proof fn ordered_by_key_is_largest_first<T>(
    s: Seq<T>,
    before: spec_fn(T, T) -> bool,
    key: spec_fn(T) -> nat,
)
    requires
        forall|a: T, b: T| #[trigger] before(a, b) == (key(a) > key(b)),
    ensures
        largest_first(order::ordered(s, before), s, key),
{
    let r = order::ordered(s, before);
    order::ordering_keeps_items(s, before);
    order::ordering_puts_in_order(s, before);
    assert forall|i: int, j: int| 0 <= i < j < r.len() implies key(#[trigger] r[i]) >= key(
        #[trigger] r[j],
    ) by {
        assert(!before(r[j], r[i]));
    }
    assert forall|x: T| #[trigger] with_key(r, key, key(x)) == with_key(s, key, key(x)) by {
        order::ordering_is_stable(s, x, before);
        lemma_tied(s, x, before, key);
        lemma_tied(r, x, before, key);
    }
}

/// What comes largest first holds what it was made from, and nothing else.
pub proof fn largest_first_keeps_items<T>(r: Seq<T>, s: Seq<T>, key: spec_fn(T) -> nat, x: T)
    requires
        largest_first(r, s, key),
    ensures
        r.contains(x) == s.contains(x),
{
    r.to_multiset_ensures();
    s.to_multiset_ensures();
    assert(r.contains(x) <==> r.to_multiset().count(x) > 0);
    assert(s.contains(x) <==> s.to_multiset().count(x) > 0);
}

/// Children, buckets, findings, anomalies, leftovers, large files and trees come with the
/// most bytes first.
pub proof fn lists_come_by_bytes(
    children: Seq<scan::ChildView>,
    buckets: Seq<catalog::BucketView>,
    findings: Seq<signatures::FindingView>,
    anomalies: Seq<anomaly::AnomalyView>,
    leftovers: Seq<uninstall::LeftoverView>,
    large: Seq<files::LargeView>,
    trees: Seq<scan::TreeView>,
)
    ensures
        largest_first(
            order::ordered(children, scan::larger_child()),
            children,
            |c: scan::ChildView| c.bytes,
        ),
        largest_first(
            order::ordered(buckets, catalog::larger_bucket()),
            buckets,
            |b: catalog::BucketView| b.bytes,
        ),
        largest_first(
            order::ordered(findings, signatures::larger_finding()),
            findings,
            |f: signatures::FindingView| f.bytes,
        ),
        largest_first(
            order::ordered(anomalies, anomaly::larger_anomaly()),
            anomalies,
            |a: anomaly::AnomalyView| a.bytes,
        ),
        largest_first(
            order::ordered(leftovers, uninstall::larger_leftover()),
            leftovers,
            |l: uninstall::LeftoverView| l.bytes,
        ),
        largest_first(
            order::ordered(large, files::larger_file()),
            large,
            |f: files::LargeView| f.bytes as nat,
        ),
        largest_first(
            order::ordered(trees, scan::larger_tree()),
            trees,
            |t: scan::TreeView| t.bytes,
        ),
{
    ordered_by_key_is_largest_first(
        children,
        scan::larger_child(),
        |c: scan::ChildView| c.bytes,
    );
    ordered_by_key_is_largest_first(
        buckets,
        catalog::larger_bucket(),
        |b: catalog::BucketView| b.bytes,
    );
    ordered_by_key_is_largest_first(
        findings,
        signatures::larger_finding(),
        |f: signatures::FindingView| f.bytes,
    );
    ordered_by_key_is_largest_first(
        anomalies,
        anomaly::larger_anomaly(),
        |a: anomaly::AnomalyView| a.bytes,
    );
    ordered_by_key_is_largest_first(
        leftovers,
        uninstall::larger_leftover(),
        |l: uninstall::LeftoverView| l.bytes,
    );
    ordered_by_key_is_largest_first(
        large,
        files::larger_file(),
        |f: files::LargeView| f.bytes as nat,
    );
    ordered_by_key_is_largest_first(trees, scan::larger_tree(), |t: scan::TreeView| t.bytes);
}

/// Groups of duplicates come with the most waste first, growths with the most growth.
pub proof fn groups_come_by_waste_and_growths_by_growth(
    groups: Seq<files::GroupView>,
    growths: Seq<baseline::GrowthView>,
)
    ensures
        largest_first(
            order::ordered(groups, files::more_waste()),
            groups,
            |g: files::GroupView| g.wasted,
        ),
        largest_first(
            order::ordered(growths, baseline::larger_growth()),
            growths,
            |g: baseline::GrowthView| g.delta as nat,
        ),
{
    ordered_by_key_is_largest_first(
        groups,
        files::more_waste(),
        |g: files::GroupView| g.wasted,
    );
    ordered_by_key_is_largest_first(
        growths,
        baseline::larger_growth(),
        |g: baseline::GrowthView| g.delta as nat,
    );
}

} // verus!
