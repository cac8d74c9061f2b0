//! Temporal self-baseline: each run snapshots the sizes of the anomaly-zone folders, compares
//! to the most recent prior snapshot, and reports what grew abnormally fast (or appeared and
//! ballooned). This turns "big" into "abnormal against its own past".

use vstd::prelude::*;

use crate::anomaly;
use crate::anomaly::{classify, AnomalyKind, ZoneChild};
use crate::double;
use crate::double::{reaches, Threshold};
use crate::order;
use crate::order::sort_by_view;
use crate::path;
use crate::path::{file_name, join_path};
use crate::report::Ratio;
use crate::text;
use crate::text::{goes_before, same_text};

verus! {

/// Minimum absolute growth to flag: 500 MB.
pub const GROWTH_FLOOR: u64 = 0x1F40_0000;

/// Rolling history cap.
pub const MAX_HISTORY: usize = 30;

/// The size of one folder.
#[derive(Debug)]
pub struct FolderSize {
    pub path: String,
    pub bytes: u64,
}

impl View for FolderSize {
    type V = (Seq<char>, u64);

    open spec fn view(&self) -> (Seq<char>, u64) {
        (self.path@, self.bytes)
    }
}

/// A point-in-time record of the anomaly-zone folder sizes.
#[derive(Debug)]
pub struct Snapshot {
    /// Unix seconds when taken.
    pub taken: u64,
    /// Folder sizes by path, each path once, in order.
    pub sizes: Vec<FolderSize>,
}

impl Snapshot {
    /// Each path occurs once, and the paths are in order.
    pub open spec fn wf(&self) -> bool {
        sorted_paths(order::views(self.sizes@))
    }
}

/// Paths in strictly ascending order.
pub open spec fn sorted_paths(s: Seq<(Seq<char>, u64)>) -> bool {
    forall|i: int, j: int|
        0 <= i < j < s.len() ==> text::text_before((#[trigger] s[i]).0, (#[trigger] s[j]).0)
}

/// The last size recorded for a path.
pub open spec fn size_at(s: Seq<(Seq<char>, u64)>, p: Seq<char>) -> Option<u64>
    decreases s.len(),
{
    if s.len() == 0 {
        None
    } else if s.last().0 == p {
        Some(s.last().1)
    } else {
        size_at(s.drop_last(), p)
    }
}

/// The paths and sizes of a list of zone children.
pub open spec fn measured(children: Seq<ZoneChild>) -> Seq<(Seq<char>, u64)> {
    Seq::new(children.len(), |i: int| (children[i].path@, children[i].bytes))
}

proof fn lemma_size_at_index(s: Seq<(Seq<char>, u64)>, i: int)
    requires
        0 <= i < s.len(),
        sorted_paths(s),
    ensures
        size_at(s, s[i].0) == Some(s[i].1),
    decreases s.len(),
{
    if i < s.len() - 1 {
        text::lemma_text_order_irreflexive(s[i].0);
        assert(text::text_before(s[i].0, s[s.len() - 1].0));
        lemma_size_at_index(s.drop_last(), i);
    }
}

proof fn lemma_size_at_absent(s: Seq<(Seq<char>, u64)>, p: Seq<char>)
    requires
        forall|i: int| 0 <= i < s.len() ==> (#[trigger] s[i]).0 != p,
    ensures
        size_at(s, p) is None,
    decreases s.len(),
{
    if s.len() > 0 {
        assert(s[s.len() - 1].0 != p);
        lemma_size_at_absent(s.drop_last(), p);
    }
}

proof fn lemma_size_at_present(s: Seq<(Seq<char>, u64)>, p: Seq<char>)
    requires
        size_at(s, p) is Some,
    ensures
        exists|i: int| 0 <= i < s.len() && (#[trigger] s[i]).0 == p && size_at(s, p) == Some(
            s[i].1,
        ),
    decreases s.len(),
{
    if s.last().0 == p {
        assert(s[s.len() - 1].0 == p);
    } else {
        lemma_size_at_present(s.drop_last(), p);
        let i = choose|i: int|
            0 <= i < s.drop_last().len() && (#[trigger] s.drop_last()[i]).0 == p && size_at(
                s.drop_last(),
                p,
            ) == Some(s.drop_last()[i].1);
        assert(s[i].0 == p);
    }
}

/// Records one size, in place of an earlier one for the same path.
fn record(sizes: &mut Vec<FolderSize>, at: &str, bytes: u64)
    requires
        sorted_paths(order::views(old(sizes)@)),
    ensures
        sorted_paths(order::views(final(sizes)@)),
        forall|p: Seq<char>| #[trigger]
            size_at(order::views(final(sizes)@), p) == (if p == at@ {
                Some(bytes)
            } else {
                size_at(order::views(old(sizes)@), p)
            }),
{
    let ghost before = order::views(sizes@);
    let mut i: usize = 0;
    while i < sizes.len() && goes_before(sizes[i].path.as_str(), at)
        invariant
            i <= sizes@.len(),
            before == order::views(sizes@),
            forall|j: int| 0 <= j < i ==> text::text_before((#[trigger] before[j]).0, at@),
        decreases sizes@.len() - i,
    {
        assert(before[i as int].0 == sizes@[i as int].path@);
        i += 1;
    }
    let entry = FolderSize { path: at.to_owned(), bytes };
    if i < sizes.len() && same_text(sizes[i].path.as_str(), at) {
        assert(before[i as int].0 == at@);
        sizes.set(i, entry);
        let ghost after = order::views(sizes@);
        proof {
            assert(after =~= before.update(i as int, (at@, bytes)));
            assert forall|a: int, b: int| 0 <= a < b < after.len() implies text::text_before(
                (#[trigger] after[a]).0,
                (#[trigger] after[b]).0,
            ) by {
                assert(after[a].0 == before[a].0);
                assert(after[b].0 == before[b].0);
            }
            assert forall|p: Seq<char>| #[trigger]
                size_at(after, p) == (if p == at@ { Some(bytes) } else { size_at(before, p) }) by {
                if p == at@ {
                    assert(after[i as int] == (at@, bytes));
                    lemma_size_at_index(after, i as int);
                } else if size_at(before, p) is Some {
                    lemma_size_at_present(before, p);
                    let k = choose|k: int|
                        0 <= k < before.len() && (#[trigger] before[k]).0 == p && size_at(before, p)
                            == Some(before[k].1);
                    assert(after[k] == before[k]);
                    lemma_size_at_index(after, k);
                } else {
                    assert forall|k: int| 0 <= k < after.len() implies (#[trigger] after[k]).0
                        != p by {
                        if after[k].0 == p {
                            assert(before[k].0 == p);
                            lemma_size_at_index(before, k);
                        }
                    }
                    lemma_size_at_absent(after, p);
                }
            }
        }
    } else {
        proof {
            assert forall|j: int| i <= j < before.len() implies text::text_before(
                at@,
                (#[trigger] before[j]).0,
            ) by {
                assert(before[i as int].0 == sizes@[i as int].path@);
                text::lemma_text_order_total(at@, before[i as int].0);
                if j > i {
                    text::lemma_text_order_transitive(at@, before[i as int].0, before[j].0);
                }
            }
        }
        sizes.insert(i, entry);
        let ghost after = order::views(sizes@);
        proof {
            assert(after =~= before.insert(i as int, (at@, bytes)));
            assert forall|a: int, b: int| 0 <= a < b < after.len() implies text::text_before(
                (#[trigger] after[a]).0,
                (#[trigger] after[b]).0,
            ) by {
                if a < i && b < i {
                    assert(after[a] == before[a] && after[b] == before[b]);
                } else if a < i && b == i {
                    assert(after[a] == before[a]);
                } else if a < i {
                    assert(after[a] == before[a] && after[b] == before[b - 1]);
                } else if a == i {
                    assert(after[b] == before[b - 1]);
                } else {
                    assert(after[a] == before[a - 1] && after[b] == before[b - 1]);
                }
            }
            assert forall|p: Seq<char>| #[trigger]
                size_at(after, p) == (if p == at@ { Some(bytes) } else { size_at(before, p) }) by {
                if p == at@ {
                    assert(after[i as int] == (at@, bytes));
                    lemma_size_at_index(after, i as int);
                } else if size_at(before, p) is Some {
                    lemma_size_at_present(before, p);
                    let k = choose|k: int|
                        0 <= k < before.len() && (#[trigger] before[k]).0 == p && size_at(before, p)
                            == Some(before[k].1);
                    let m = if k < i { k } else { k + 1 };
                    assert(after[m] == before[k]);
                    lemma_size_at_index(after, m);
                } else {
                    assert forall|k: int| 0 <= k < after.len() implies (#[trigger] after[k]).0
                        != p by {
                        if after[k].0 == p {
                            let m = if k < i { k } else { k - 1 };
                            assert(before[m].0 == p);
                            lemma_size_at_index(before, m);
                        }
                    }
                    lemma_size_at_absent(after, p);
                }
            }
        }
    }
}

/// Snapshots the sizes of the child folders across the anomaly zones.
pub fn snapshot_now(taken: u64, children: &Vec<ZoneChild>) -> (r: Snapshot)
    ensures
        r.taken == taken,
        r.wf(),
        forall|p: Seq<char>| #[trigger]
            size_at(order::views(r.sizes@), p) == size_at(measured(children@), p),
{
    let mut sizes: Vec<FolderSize> = Vec::new();
    let mut i: usize = 0;
    let ghost all = measured(children@);
    assert(order::views(sizes@) =~= Seq::<(Seq<char>, u64)>::empty());
    assert(all.take(0) =~= Seq::<(Seq<char>, u64)>::empty());
    while i < children.len()
        invariant
            i <= children@.len(),
            all == measured(children@),
            sorted_paths(order::views(sizes@)),
            forall|p: Seq<char>| #[trigger]
                size_at(order::views(sizes@), p) == size_at(all.take(i as int), p),
        decreases children@.len() - i,
    {
        proof {
            assert(all.take(i + 1).drop_last() =~= all.take(i as int));
            assert(all.take(i + 1).last() == (
                children@[i as int].path@,
                children@[i as int].bytes,
            ));
        }
        record(&mut sizes, children[i].path.as_str(), children[i].bytes);
        i += 1;
    }
    assert(all.take(all.len() as int) =~= all);
    Snapshot { taken, sizes }
}

/// Where the history is kept, under the home directory.
pub open spec fn history_location(home: Seq<char>) -> Seq<char> {
    path::joined_path(path::joined_path(home, ".deepscan"@), "history.json"@)
}

/// Where the history is kept, if the home directory is known.
pub fn history_path(home: &Option<String>) -> (r: Option<String>)
    ensures
        match *home {
            Some(h) => r matches Some(p) && p@ == history_location(h@),
            None => r is None,
        },
{
    match home {
        Some(h) => {
            let dir = join_path(h.as_str(), ".deepscan");
            Some(join_path(dir.as_str(), "history.json"))
        },
        None => None,
    }
}

/// One folder that grew notably (or newly appeared large) since the prior snapshot.
#[derive(Debug)]
pub struct Growth {
    pub path: String,
    pub name: String,
    pub kind: AnomalyKind,
    pub current: u64,
    pub previous: Option<u64>,
    /// Absolute growth (or the full size, if new).
    pub delta: u64,
    /// Growth against the prior size (None if new).
    pub growth: Option<Ratio>,
    /// Seconds between the prior snapshot and this one.
    pub seconds: u64,
    pub is_new: bool,
}

/// What a growth says.
pub struct GrowthView {
    pub path: Seq<char>,
    pub name: Seq<char>,
    pub kind: AnomalyKind,
    pub current: u64,
    pub previous: Option<u64>,
    pub delta: u64,
    pub growth: Option<Ratio>,
    pub seconds: u64,
    pub is_new: bool,
}

impl View for Growth {
    type V = GrowthView;

    open spec fn view(&self) -> GrowthView {
        GrowthView {
            path: self.path@,
            name: self.name@,
            kind: self.kind,
            current: self.current,
            previous: self.previous,
            delta: self.delta,
            growth: self.growth,
            seconds: self.seconds,
            is_new: self.is_new,
        }
    }
}

/// Whether a folder that was `p` bytes grew notably to `cur`: by the floor, and by a quarter.
pub open spec fn grew(p: nat, cur: nat) -> bool {
    &&& cur > p
    &&& cur - p >= GROWTH_FLOOR
    &&& p == 0 || double::quotient_reaches((cur - p) as nat, p, Threshold::Quarter)
}

/// Whether a folder is worth reporting.
pub open spec fn notable(previous: Option<u64>, cur: nat) -> bool {
    match previous {
        Some(p) => grew(p as nat, cur),
        None => cur >= GROWTH_FLOOR,
    }
}

/// The name shown for a folder: its last component, else the whole path.
pub open spec fn folder_name(at: Seq<char>) -> Seq<char> {
    match path::file_name_of(at) {
        Some(n) => n,
        None => at,
    }
}

/// Seconds from one time to a later one; none where it is earlier.
pub open spec fn elapsed(from: u64, to: u64) -> u64 {
    if to >= from { (to - from) as u64 } else { 0 }
}

/// The growth of a folder that is worth reporting.
pub open spec fn growth_of(
    entry: (Seq<char>, u64),
    previous: Option<u64>,
    seconds: u64,
    home: Option<Seq<char>>,
) -> GrowthView {
    let delta = match previous {
        Some(p) => (entry.1 - p) as u64,
        None => entry.1,
    };
    GrowthView {
        path: entry.0,
        name: folder_name(entry.0),
        kind: anomaly::kind_of(entry.0, home),
        current: entry.1,
        previous,
        delta,
        growth: match previous {
            Some(p) => Some(Ratio { part: delta, whole: p }),
            None => None,
        },
        seconds,
        is_new: previous is None,
    }
}

/// The growths among the first folders of a snapshot, against the prior sizes.
pub open spec fn growths_of(
    prior: Seq<(Seq<char>, u64)>,
    now: Seq<(Seq<char>, u64)>,
    seconds: u64,
    home: Option<Seq<char>>,
) -> Seq<GrowthView>
    decreases now.len(),
{
    if now.len() == 0 {
        Seq::empty()
    } else {
        let rest = growths_of(prior, now.drop_last(), seconds, home);
        let e = now.last();
        let previous = size_at(prior, e.0);
        if notable(previous, e.1 as nat) {
            rest.push(growth_of(e, previous, seconds, home))
        } else {
            rest
        }
    }
}

/// Largest growth first.
pub open spec fn larger_growth() -> spec_fn(GrowthView, GrowthView) -> bool {
    |a: GrowthView, b: GrowthView| a.delta > b.delta
}

/// What grew notably from one snapshot to the next, largest growth first.
pub open spec fn growth_between(
    prev: Snapshot,
    current: Snapshot,
    home: Option<Seq<char>>,
) -> Seq<GrowthView> {
    order::ordered(
        growths_of(
            order::views(prev.sizes@),
            order::views(current.sizes@),
            elapsed(prev.taken, current.taken),
            home,
        ),
        larger_growth(),
    )
}

fn growth_is_larger(a: &Growth, b: &Growth) -> (r: bool)
    ensures
        r == (a.delta > b.delta),
{
    a.delta > b.delta
}

/// The last size recorded for a path.
pub fn lookup_size(sizes: &Vec<FolderSize>, at: &str) -> (r: Option<u64>)
    ensures
        r == size_at(order::views(sizes@), at@),
{
    let mut i: usize = sizes.len();
    let ghost all = order::views(sizes@);
    assert(all.take(all.len() as int) =~= all);
    while i > 0
        invariant
            i <= sizes@.len(),
            all == order::views(sizes@),
            size_at(all, at@) == size_at(all.take(i as int), at@),
        decreases i,
    {
        proof {
            assert(all.take(i as int).last() == sizes@[i - 1]@);
            assert(all.take(i as int).drop_last() =~= all.take(i - 1));
        }
        if same_text(sizes[i - 1].path.as_str(), at) {
            return Some(sizes[i - 1].bytes);
        }
        i -= 1;
    }
    None
}

fn is_notable(previous: Option<u64>, cur: u64) -> (r: bool)
    ensures
        r == notable(previous, cur as nat),
{
    match previous {
        Some(p) => {
            if cur <= p {
                return false;
            }
            let delta = cur - p;
            if delta < GROWTH_FLOOR {
                return false;
            }
            p == 0 || reaches(delta, p, Threshold::Quarter)
        },
        None => cur >= GROWTH_FLOOR,
    }
}

/// Compares `current` against `prev`, returning growth entries ranked by delta. Flags a grown
/// folder when it added at least 500 MB and at least a quarter; a new folder when it is at
/// least 500 MB.
pub fn compute_growth(prev: &Snapshot, current: &Snapshot, home: &Option<String>) -> (r: Vec<
    Growth,
>)
    ensures
        order::views(r@) == growth_between(*prev, *current, text::opt_text(*home)),
{
    let ghost h = text::opt_text(*home);
    let ghost prior = order::views(prev.sizes@);
    let ghost now = order::views(current.sizes@);
    let seconds: u64 = if current.taken >= prev.taken {
        current.taken - prev.taken
    } else {
        0
    };
    let mut out: Vec<Growth> = Vec::new();
    let mut i: usize = 0;
    assert(now.take(0) =~= Seq::<(Seq<char>, u64)>::empty());
    assert(order::views(out@) =~= Seq::<GrowthView>::empty());
    while i < current.sizes.len()
        invariant
            i <= current.sizes@.len(),
            h == text::opt_text(*home),
            prior == order::views(prev.sizes@),
            now == order::views(current.sizes@),
            order::views(out@) == growths_of(prior, now.take(i as int), seconds, h),
        decreases current.sizes@.len() - i,
    {
        proof {
            assert(now.take(i + 1).drop_last() =~= now.take(i as int));
            assert(now.take(i + 1).last() == current.sizes@[i as int]@);
        }
        let cur = current.sizes[i].bytes;
        let previous = lookup_size(&prev.sizes, current.sizes[i].path.as_str());
        if is_notable(previous, cur) {
            let at = current.sizes[i].path.clone();
            let delta: u64 = match previous {
                Some(p) => cur - p,
                None => cur,
            };
            let g = Growth {
                name: match file_name(at.as_str()) {
                    Some(n) => n,
                    None => at.clone(),
                },
                kind: classify(at.as_str(), home),
                path: at,
                current: cur,
                previous,
                delta,
                growth: match previous {
                    Some(p) => Some(Ratio { part: delta, whole: p }),
                    None => None,
                },
                seconds,
                is_new: match previous {
                    Some(_) => false,
                    None => true,
                },
            };
            proof {
                order::lemma_views_push(out@, g);
            }
            out.push(g);
        }
        i += 1;
    }
    assert(now.take(now.len() as int) =~= now);
    sort_by_view(out, growth_is_larger, Ghost(larger_growth()))
}

/// Result of a growth run.
#[derive(Debug)]
pub struct GrowthReport {
    /// Timestamp of the prior snapshot compared against (None on the first run).
    pub previous_at: Option<u64>,
    pub now: u64,
    pub entries: Vec<Growth>,
    /// True when there was no prior snapshot: a baseline was recorded only.
    pub baseline_only: bool,
}

/// The newest snapshots that are kept.
pub open spec fn pruned(history: Seq<Snapshot>) -> Seq<Snapshot> {
    if history.len() > MAX_HISTORY {
        history.skip(history.len() - MAX_HISTORY)
    } else {
        history
    }
}

/// Compares the current snapshot to the most recent prior one, appends it to the history and
/// drops the oldest snapshots beyond the cap.
pub fn record_and_compare(
    history: Vec<Snapshot>,
    current: Snapshot,
    home: &Option<String>,
) -> (r: (GrowthReport, Vec<Snapshot>))
    ensures
        r.0.now == current.taken,
        r.0.baseline_only == (history@.len() == 0),
        history@.len() == 0 ==> r.0.previous_at is None && r.0.entries@.len() == 0,
        history@.len() > 0 ==> {
            &&& r.0.previous_at == Some(history@.last().taken)
            &&& order::views(r.0.entries@) == growth_between(
                history@.last(),
                current,
                text::opt_text(*home),
            )
        },
        r.1@ == pruned(history@.push(current)),
{
    let now = current.taken;
    let n = history.len();
    let report = if n > 0 {
        let prev = &history[n - 1];
        GrowthReport {
            previous_at: Some(prev.taken),
            now,
            entries: compute_growth(prev, &current, home),
            baseline_only: false,
        }
    } else {
        GrowthReport { previous_at: None, now, entries: Vec::new(), baseline_only: true }
    };
    let mut kept = history;
    kept.push(current);
    let len = kept.len();
    if len > MAX_HISTORY {
        let newest = kept.split_off(len - MAX_HISTORY);
        (report, newest)
    } else {
        (report, kept)
    }
}

/// The history never exceeds its cap, and the snapshot just taken is its newest.
pub proof fn history_is_capped(history: Seq<Snapshot>, current: Snapshot)
    ensures
        pruned(history.push(current)).len() <= MAX_HISTORY,
        pruned(history.push(current)).len() > 0,
        pruned(history.push(current)).last() == current,
        history.len() < MAX_HISTORY ==> pruned(history.push(current)) == history.push(current),
{
}

/// A folder that did not grow is never reported, nor is one that grew by less than the floor.
pub proof fn small_changes_are_not_growth(previous: u64, cur: u64)
    requires
        cur < previous + GROWTH_FLOOR,
    ensures
        !notable(Some(previous), cur as nat),
{
}

proof fn lemma_no_growth(
    s: Seq<(Seq<char>, u64)>,
    now: Seq<(Seq<char>, u64)>,
    seconds: u64,
    home: Option<Seq<char>>,
)
    requires
        forall|i: int|
            0 <= i < now.len() ==> size_at(s, (#[trigger] now[i]).0) == Some(now[i].1),
    ensures
        growths_of(s, now, seconds, home).len() == 0,
    decreases now.len(),
{
    if now.len() > 0 {
        assert(size_at(s, now[now.len() - 1].0) == Some(now[now.len() - 1].1));
        assert forall|i: int| 0 <= i < now.drop_last().len() implies size_at(
            s,
            (#[trigger] now.drop_last()[i]).0,
        ) == Some(now.drop_last()[i].1) by {
            assert(now.drop_last()[i] == now[i]);
        }
        lemma_no_growth(s, now.drop_last(), seconds, home);
    }
}

/// A snapshot compared with itself shows no growth.
pub proof fn no_growth_against_itself(s: Snapshot, home: Option<Seq<char>>)
    requires
        s.wf(),
    ensures
        growth_between(s, s, home).len() == 0,
{
    let all = order::views(s.sizes@);
    assert forall|i: int| 0 <= i < all.len() implies size_at(all, (#[trigger] all[i]).0) == Some(
        all[i].1,
    ) by {
        lemma_size_at_index(all, i);
    }
    lemma_no_growth(all, all, elapsed(s.taken, s.taken), home);
    order::lemma_ordered_len(
        growths_of(all, all, elapsed(s.taken, s.taken), home),
        larger_growth(),
    );
}

/// Growths come largest first, none is lost, and ties keep their order.
pub proof fn growths_come_largest_first(s: Seq<GrowthView>, x: GrowthView)
    ensures
        order::in_order(order::ordered(s, larger_growth()), larger_growth()),
        order::ordered(s, larger_growth()).to_multiset() == s.to_multiset(),
        order::tied_with(order::ordered(s, larger_growth()), x, larger_growth()) == order::tied_with(
            s,
            x,
            larger_growth(),
        ),
{
    order::ordering_puts_in_order(s, larger_growth());
    order::ordering_keeps_items(s, larger_growth());
    order::ordering_is_stable(s, x, larger_growth());
}

/// What is reported grew by at least the floor, and is marked as new exactly where the prior
/// snapshot did not have it.
pub proof fn reported_growth_reaches_the_floor(
    prior: Seq<(Seq<char>, u64)>,
    now: Seq<(Seq<char>, u64)>,
    seconds: u64,
    home: Option<Seq<char>>,
    i: int,
)
    requires
        0 <= i < growths_of(prior, now, seconds, home).len(),
    ensures
        ({
            let g = growths_of(prior, now, seconds, home)[i];
            &&& g.delta >= GROWTH_FLOOR
            &&& g.previous == size_at(prior, g.path)
            &&& g.is_new == (size_at(prior, g.path) is None)
            &&& notable(g.previous, g.current as nat)
        }),
    decreases now.len(),
{
    let rest = growths_of(prior, now.drop_last(), seconds, home);
    if i < rest.len() {
        reported_growth_reaches_the_floor(prior, now.drop_last(), seconds, home, i);
    }
}

} // verus!
