//! Moving selected items to the Trash, guarded by `is_safe_to_delete`. The Trash call is
//! handed in.

use vstd::prelude::*;

use crate::engine;
use crate::engine::is_safe_to_delete;
use crate::text;

verus! {

/// A path to be trashed, with its size.
#[derive(Debug)]
pub struct TrashItem {
    pub path: String,
    pub bytes: u64,
}

/// A path that could not be trashed, with the reason.
#[derive(Debug)]
pub struct TrashFailure {
    pub path: String,
    pub error: String,
}

/// What became of a round of trashing.
#[derive(Debug)]
pub struct TrashOutcome {
    pub freed_bytes: u64,
    pub failures: Vec<TrashFailure>,
}

impl TrashOutcome {
    /// Nothing trashed, nothing failed.
    pub fn new() -> (r: TrashOutcome)
        ensures
            r.freed_bytes == 0,
            r.failures@ == Seq::<TrashFailure>::empty(),
    {
        TrashOutcome { freed_bytes: 0, failures: Vec::new() }
    }
}

/// The bytes of a list of items.
pub open spec fn items_total(items: Seq<TrashItem>) -> nat
    decreases items.len(),
{
    if items.len() == 0 { 0 } else { items_total(items.drop_last()) + items.last().bytes as nat }
}

/// Whether `res` is what became of an item: refused where it fails the guard, else what
/// `delete` said of its path.
pub open spec fn is_attempt<F: Fn(&String) -> Result<(), String>>(
    item: TrashItem,
    home: Option<Seq<char>>,
    delete: F,
    res: Result<(), String>,
) -> bool {
    if !engine::safe_to_delete(item.path@, home) {
        res matches Err(e) && e@ == "refused: failed safety guard"@
    } else {
        call_ensures(delete, (&item.path,), res)
    }
}

/// The bytes of the items that were trashed.
pub open spec fn freed_by(items: Seq<TrashItem>, results: Seq<Result<(), String>>) -> nat
    decreases items.len(),
{
    if items.len() == 0 {
        0
    } else {
        let rest = freed_by(items.drop_last(), results);
        if results[items.len() - 1] is Ok { rest + items.last().bytes as nat } else { rest }
    }
}

/// The items that were not trashed, with the reasons.
pub open spec fn failures_of(items: Seq<TrashItem>, results: Seq<Result<(), String>>) -> Seq<
    TrashFailure,
>
    decreases items.len(),
{
    if items.len() == 0 {
        Seq::empty()
    } else {
        let rest = failures_of(items.drop_last(), results);
        match results[items.len() - 1] {
            Ok(_) => rest,
            Err(error) => rest.push(TrashFailure { path: items.last().path, error }),
        }
    }
}

/// Whether an outcome is that of trashing `items` one by one with these results.
pub open spec fn is_round<F: Fn(&String) -> Result<(), String>>(
    outcome: TrashOutcome,
    items: Seq<TrashItem>,
    home: Option<Seq<char>>,
    delete: F,
    results: Seq<Result<(), String>>,
) -> bool {
    &&& results.len() == items.len()
    &&& forall|i: int|
        0 <= i < items.len() ==> is_attempt(items[i], home, delete, #[trigger] results[i])
    &&& outcome.freed_bytes == freed_by(items, results)
    &&& outcome.failures@ == failures_of(items, results)
}

proof fn lemma_results_prefix(
    items: Seq<TrashItem>,
    a: Seq<Result<(), String>>,
    b: Seq<Result<(), String>>,
)
    requires
        items.len() <= a.len(),
        items.len() <= b.len(),
        forall|i: int| 0 <= i < items.len() ==> a[i] == b[i],
    ensures
        freed_by(items, a) == freed_by(items, b),
        failures_of(items, a) == failures_of(items, b),
    decreases items.len(),
{
    if items.len() > 0 {
        lemma_results_prefix(items.drop_last(), a, b);
    }
}

proof fn lemma_items_prefix(items: Seq<TrashItem>, k: int)
    requires
        0 <= k <= items.len(),
    ensures
        items_total(items.take(k)) <= items_total(items),
    decreases items.len(),
{
    if k < items.len() {
        assert(items.drop_last().take(k) =~= items.take(k));
        lemma_items_prefix(items.drop_last(), k);
    } else {
        assert(items.take(k) =~= items);
    }
}

/// Trashes each item with `delete`, which is never called on a path that fails the safety
/// guard.
pub fn trash_selected_with<F: Fn(&String) -> Result<(), String>>(
    items: &Vec<TrashItem>,
    home: &Option<String>,
    delete: F,
) -> (r: TrashOutcome)
    requires
        items_total(items@) <= u64::MAX,
        forall|i: int|
            0 <= i < items@.len() && engine::safe_to_delete(
                (#[trigger] items@[i]).path@,
                text::opt_text(*home),
            ) ==> call_requires(delete, (&items@[i].path,)),
    ensures
        exists|results: Seq<Result<(), String>>| #[trigger]
            is_round(r, items@, text::opt_text(*home), delete, results),
{
    let ghost h = text::opt_text(*home);
    let mut freed_bytes: u64 = 0;
    let mut failures: Vec<TrashFailure> = Vec::new();
    let ghost mut results: Seq<Result<(), String>> = Seq::empty();
    let mut i: usize = 0;
    assert(items@.take(0) =~= Seq::<TrashItem>::empty());
    while i < items.len()
        invariant
            i <= items@.len(),
            h == text::opt_text(*home),
            items_total(items@) <= u64::MAX,
            forall|i: int|
                0 <= i < items@.len() && engine::safe_to_delete(
                    (#[trigger] items@[i]).path@,
                    h,
                ) ==> call_requires(delete, (&items@[i].path,)),
            results.len() == i,
            forall|j: int| 0 <= j < i ==> is_attempt(items@[j], h, delete, #[trigger] results[j]),
            freed_bytes == freed_by(items@.take(i as int), results),
            freed_bytes <= items_total(items@.take(i as int)),
            failures@ == failures_of(items@.take(i as int), results),
        decreases items@.len() - i,
    {
        let item = &items[i];
        let res: Result<(), String> = if !is_safe_to_delete(item.path.as_str(), home) {
            Err("refused: failed safety guard".to_owned())
        } else {
            delete(&item.path)
        };
        proof {
            assert(is_attempt(*item, h, delete, res));
            let now = items@.take(i + 1);
            assert(now.drop_last() =~= items@.take(i as int));
            assert(now.last() == *item);
            lemma_items_prefix(items@, i + 1);
            lemma_results_prefix(items@.take(i as int), results, results.push(res));
            results = results.push(res);
        }
        match res {
            Ok(_) => {
                freed_bytes += item.bytes;
            },
            Err(error) => {
                failures.push(TrashFailure { path: item.path.clone(), error });
            },
        }
        i += 1;
    }
    assert(items@.take(items@.len() as int) =~= items@);
    let r = TrashOutcome { freed_bytes, failures };
    assert(is_round(r, items@, h, delete, results));
    r
}

/// What is not freed has failed: every item was either trashed or is among the failures.
pub proof fn every_item_is_accounted_for(
    items: Seq<TrashItem>,
    results: Seq<Result<(), String>>,
    i: int,
)
    requires
        results.len() == items.len(),
        0 <= i < items.len(),
        results[i] is Err,
    ensures
        failures_of(items, results).contains(
            TrashFailure { path: items[i].path, error: results[i]->Err_0 },
        ),
    decreases items.len(),
{
    let all = failures_of(items, results);
    let wanted = TrashFailure { path: items[i].path, error: results[i]->Err_0 };
    if i == items.len() - 1 {
        assert(all[all.len() - 1] == wanted);
    } else {
        let shorter = results.take(items.len() - 1);
        lemma_results_prefix(items.drop_last(), results, shorter);
        every_item_is_accounted_for(items.drop_last(), shorter, i);
        let rest = failures_of(items.drop_last(), results);
        let k = choose|k: int| 0 <= k < rest.len() && rest[k] == wanted;
        assert(all[k] == wanted);
    }
}

} // verus!
