//! Selecting rows, and trashing what is selected.

use vstd::prelude::*;

use crate::engine;
use crate::engine::{ReclaimOutcome, ReclaimTarget};
use crate::order;
use crate::path;
use crate::report::UninstallOutcome;
use crate::text;
use crate::tui::action;
use crate::tui::action::{TrashFailure, TrashItem};
use crate::tui::keys::Key;
use crate::tui::list;
use crate::tui::widget;
use crate::tui::widget::{ListState, Row, RowMeta, Sort};
use crate::uninstall;

verus! {

/// What is chosen are the selected rows, in order.
pub proof fn the_selected_rows_are_chosen(rows: Seq<Row>, r: Row)
    ensures
        widget::chosen(Seq::empty()).len() == 0,
        r.selected ==> widget::chosen(rows.push(r)) == widget::chosen(rows).push(r),
        !r.selected ==> widget::chosen(rows.push(r)) == widget::chosen(rows),
{
    assert(rows.push(r).drop_last() =~= rows);
}

/// Only selected rows are chosen.
pub proof fn only_selected_rows_are_chosen(rows: Seq<Row>, k: int)
    requires
        0 <= k < widget::chosen(rows).len(),
    ensures
        widget::chosen(rows)[k].selected,
        rows.contains(widget::chosen(rows)[k]),
    decreases rows.len(),
{
    let rest = widget::chosen(rows.drop_last());
    assert(rows[rows.len() - 1] == rows.last());
    if k < rest.len() {
        only_selected_rows_are_chosen(rows.drop_last(), k);
        let i = choose|i: int| 0 <= i < rows.drop_last().len() && rows.drop_last()[i] == rest[k];
        assert(rows[i] == rest[k]);
    }
}

/// What is trashed are the paths of the chosen rows, with their bytes.
pub proof fn items_are_the_chosen_paths(rows: Seq<Row>, i: int)
    requires
        0 <= i < rows.len(),
    ensures
        list::items_of(rows).len() == rows.len(),
        list::items_of(rows)[i].path == rows[i].path,
        list::items_of(rows)[i].bytes == rows[i].bytes,
{
}

/// Selected rows add up to their bytes and their number.
pub proof fn selected_rows_add_up(rows: Seq<Row>, r: Row)
    ensures
        order::sum(rows.push(r), widget::selected_weight()) == order::sum(
            rows,
            widget::selected_weight(),
        ) + (if r.selected {
            r.bytes as int
        } else {
            0
        }),
        order::sum(rows.push(r), widget::selected_one()) == order::sum(
            rows,
            widget::selected_one(),
        ) + (if r.selected {
            1int
        } else {
            0
        }),
        order::sum(Seq::<Row>::empty(), widget::selected_weight()) == 0,
        order::sum(Seq::<Row>::empty(), widget::selected_one()) == 0,
{
    order::lemma_sum_push(rows, r, widget::selected_weight());
    order::lemma_sum_push(rows, r, widget::selected_one());
}

/// Where every set keeps a copy, each set has a row that is not selected.
pub proof fn every_set_keeps_a_row(rows: Seq<Row>, i: int)
    requires
        widget::keeps_a_copy(rows),
        0 <= i < rows.len(),
        rows[i].group is Some,
    ensures
        exists|j: int|
            0 <= j < rows.len() && (#[trigger] rows[j]).group == rows[i].group && !rows[j].selected,
{
    assert(widget::has_unselected(rows, rows[i].group));
}

/// Toggling changes nothing but whether the row is selected; a selected row is deselected, a
/// row outside every set is selected, and one of a set only where another of it is not. Every
/// set keeps a copy.
pub proof fn toggling_changes_one_row(rows: Seq<Row>, i: int, j: int)
    requires
        0 <= i < rows.len(),
        0 <= j < rows.len(),
    ensures
        ({
            let after = widget::toggled(rows, i);
            &&& after.len() == rows.len()
            &&& j != i ==> after[j] == rows[j]
            &&& after[i].path == rows[i].path && after[i].bytes == rows[i].bytes && after[i].label
                == rows[i].label && after[i].group == rows[i].group && after[i].meta
                == rows[i].meta
            &&& rows[i].selected ==> !after[i].selected
            &&& !rows[i].selected && rows[i].group is None ==> after[i].selected
            &&& !rows[i].selected && rows[i].group is Some && j != i && rows[j].group
                == rows[i].group && !rows[j].selected ==> after[i].selected
            &&& !rows[i].selected && rows[i].group is Some && (forall|k: int|
                0 <= k < rows.len() && k != i && (#[trigger] rows[k]).group == rows[i].group
                    ==> rows[k].selected) ==> !after[i].selected
            &&& widget::keeps_a_copy(rows) ==> widget::keeps_a_copy(after)
        }),
{
    if widget::keeps_a_copy(rows) {
        widget::lemma_toggle_keeps_a_copy(rows, i);
    }
}

/// Outside the list nothing is toggled.
pub proof fn toggling_needs_a_row(rows: Seq<Row>, i: int)
    requires
        i < 0 || i >= rows.len(),
    ensures
        widget::toggled(rows, i) == rows,
{
}

/// Selecting all leaves out one row of each set, its first, and no row outside the sets.
pub proof fn all_but_the_first_copies(rows: Seq<Row>, i: int, j: int)
    requires
        0 <= i < rows.len(),
        0 <= j < rows.len(),
    ensures
        rows[i].group is None ==> !widget::first_copy(rows, i),
        widget::first_copy(rows, i) && rows[j].group == rows[i].group ==> i <= j,
        rows[i].group is Some && (forall|k: int|
            0 <= k < i ==> (#[trigger] rows[k]).group != rows[i].group) ==> widget::first_copy(
            rows,
            i,
        ),
        widget::with_selected(rows[i], true).selected,
        !widget::with_selected(rows[i], false).selected,
        forall|b: bool|
            {
                &&& (#[trigger] widget::with_selected(rows[i], b)).path == rows[i].path
                &&& widget::with_selected(rows[i], b).bytes == rows[i].bytes
                &&& widget::with_selected(rows[i], b).label == rows[i].label
                &&& widget::with_selected(rows[i], b).meta == rows[i].meta
                &&& widget::with_selected(rows[i], b).group == rows[i].group
            },
{
}

/// Rows are sorted by size, largest first; by age, oldest first, where a row without an age
/// counts as new; or by name in lower case. Sorting keeps every row.
pub proof fn rows_are_sorted(rows: Seq<Row>, sort: Sort)
    ensures
        ({
            let after = order::ordered(rows, widget::row_before(sort));
            &&& after.to_multiset() == rows.to_multiset()
            &&& after.len() == rows.len()
            &&& sort is Size ==> forall|i: int, j: int|
                0 <= i < j < after.len() ==> (#[trigger] after[i]).bytes >= (
                #[trigger] after[j]).bytes
            &&& sort is Age ==> forall|i: int, j: int|
                0 <= i < j < after.len() ==> widget::age_of(#[trigger] after[i]) >= widget::age_of(
                    #[trigger] after[j],
                )
            &&& sort is Name ==> forall|i: int, j: int|
                0 <= i < j < after.len() ==> !text::text_before(
                    text::lowercase((#[trigger] after[j]).label@),
                    text::lowercase((#[trigger] after[i]).label@),
                )
            &&& widget::keeps_a_copy(rows) ==> widget::keeps_a_copy(after)
        }),
{
    let before = widget::row_before(sort);
    let after = order::ordered(rows, before);
    widget::rows_are_weakly_ordered(sort);
    order::ordering_keeps_items(rows, before);
    order::ordering_puts_in_order(rows, before);
    if widget::keeps_a_copy(rows) {
        widget::lemma_order_keeps_a_copy(rows, sort);
    }
    assert forall|i: int, j: int| 0 <= i < j < after.len() implies !before(
        #[trigger] after[j],
        #[trigger] after[i],
    ) by {}
}

/// The age of a row is the days that it shows, and nothing where it shows none.
pub proof fn ages_are_shown_days(r: Row, d: u64)
    ensures
        r.meta == RowMeta::Age(Some(d)) ==> widget::age_of(r) == d,
        !(r.meta is Age) || r.meta == RowMeta::Age(None) ==> widget::age_of(r) == 0,
{
}

/// Sorting goes round: three steps lead back, fewer do not.
pub proof fn sorting_goes_round(sort: Sort)
    ensures
        list::next_sort(list::next_sort(list::next_sort(sort))) == sort,
        list::next_sort(sort) != sort,
        list::next_sort(Sort::Size) == Sort::Age,
{
}

/// No key changes what the list holds: except for sorting every row stays where it is with all
/// but its selection, and only the keys for toggling, all and none change that.
pub proof fn keys_keep_the_rows(before: ListState, key: Key, after: ListState, i: int)
    requires
        list::moved(before, key, after),
        0 <= i < before.rows@.len(),
    ensures
        key != Key::Char('s') ==> {
            &&& after.rows@.len() == before.rows@.len()
            &&& after.rows@[i].path == before.rows@[i].path
            &&& after.rows@[i].bytes == before.rows@[i].bytes
            &&& after.rows@[i].label == before.rows@[i].label
            &&& after.rows@[i].group == before.rows@[i].group
            &&& after.sort == before.sort
        },
        key == Key::Char('s') ==> after.rows@.to_multiset() == before.rows@.to_multiset(),
        key != Key::Char('s') && key != Key::Char(' ') && key != Key::Char('a') && key
            != Key::Char('n') ==> after.rows@ == before.rows@,
        key == Key::Char('n') ==> !after.rows@[i].selected,
        key == Key::Char('a') && before.rows@[i].group is None ==> after.rows@[i].selected,
        key == Key::Char(' ') && i != before.cursor ==> after.rows@[i] == before.rows@[i],
        key != Key::Char('s') && key != Key::Up && key != Key::Down && key != Key::Char('j') && key
            != Key::Char('k') ==> after.cursor == before.cursor,
        key == Key::Up || key == Key::Char('k') ==> after.cursor <= before.cursor && before.cursor
            <= after.cursor + 1 && (before.cursor > 0 ==> after.cursor < before.cursor),
        (key == Key::Down || key == Key::Char('j')) && before.cursor + 1 < before.rows@.len()
            ==> after.cursor == before.cursor + 1,
        (key == Key::Down || key == Key::Char('j')) && before.cursor + 1 >= before.rows@.len()
            ==> after.cursor == before.cursor,
{
    if key == Key::Char('s') {
        order::ordering_keeps_items(before.rows@, widget::row_before(after.sort));
    }
}

/// Only two keys ask to trash.
pub proof fn two_keys_ask_to_trash(key: Key)
    ensures
        list::asks_to_trash(key) <==> key == Key::Enter || key == Key::Char('d'),
{
}

/// After a round exactly the rows leave whose path was among the items and did not fail; the
/// others stay in order, deselected.
pub proof fn what_was_trashed_leaves(
    rows: Seq<Row>,
    r: Row,
    items: Seq<Seq<char>>,
    failed: Seq<Seq<char>>,
)
    ensures
        list::remaining_rows(Seq::empty(), items, failed).len() == 0,
        ({
            let before = list::remaining_rows(rows, items, failed);
            let now = list::remaining_rows(rows.push(r), items, failed);
            let tried = exists|i: int|
                0 <= i < items.len() && path::same_path(#[trigger] items[i], r.path@);
            let missed = exists|i: int|
                0 <= i < failed.len() && path::same_path(#[trigger] failed[i], r.path@);
            if tried && !missed {
                now == before
            } else {
                &&& now.len() == before.len() + 1
                &&& now.drop_last() == before
                &&& now.last().path == r.path
                &&& now.last().bytes == r.bytes
                &&& now.last().label == r.label
                &&& now.last().meta == r.meta
                &&& now.last().group == r.group
                &&& !now.last().selected
            }
        }),
{
    assert(rows.push(r).drop_last() =~= rows);
    let before = list::remaining_rows(rows, items, failed);
    let now = list::remaining_rows(rows.push(r), items, failed);
    if list::stays(r, items, failed) {
        assert(now.drop_last() =~= before);
    }
}

/// The paths of items and of failures are theirs.
pub proof fn paths_of_items_and_failures(
    items: Seq<TrashItem>,
    failures: Seq<TrashFailure>,
)
    ensures
        list::item_paths(items).len() == items.len(),
        forall|i: int| 0 <= i < items.len() ==> #[trigger] list::item_paths(items)[i] == items[i].path@,
        list::failure_paths(failures).len() == failures.len(),
        forall|i: int|
            0 <= i < failures.len() ==> #[trigger] list::failure_paths(failures)[i]
                == failures[i].path@,
{
}

/// What a round frees are the bytes of the items that went, and its failures are the others
/// with the reasons, in order.
pub proof fn a_round_adds_up(
    items: Seq<TrashItem>,
    t: TrashItem,
    results: Seq<Result<(), String>>,
)
    requires
        items.len() < results.len(),
    ensures
        action::freed_by(Seq::empty(), results) == 0,
        action::failures_of(Seq::empty(), results).len() == 0,
        action::items_total(Seq::empty()) == 0,
        action::items_total(items.push(t)) == action::items_total(items) + t.bytes,
        results[items.len() as int] is Ok ==> {
            &&& action::freed_by(items.push(t), results) == action::freed_by(items, results)
                + t.bytes
            &&& action::failures_of(items.push(t), results) == action::failures_of(items, results)
        },
        results[items.len() as int] matches Err(e) ==> {
            let before = action::failures_of(items, results);
            let now = action::failures_of(items.push(t), results);
            &&& action::freed_by(items.push(t), results) == action::freed_by(items, results)
            &&& now.len() == before.len() + 1
            &&& now.drop_last() == before
            &&& now.last().path == t.path
            &&& now.last().error == e
        },
{
    assert(items.push(t).drop_last() =~= items);
    let before = action::failures_of(items, results);
    let now = action::failures_of(items.push(t), results);
    if results[items.len() as int] is Err {
        assert(now.drop_last() =~= before);
    }
}

/// Nothing that fails its guard is ever deleted, and what passes it is: the outcome is then
/// what the deletion said.
pub proof fn what_fails_its_guard_is_refused<F: Fn(&String) -> Result<(), String>>(
    item: TrashItem,
    target: ReclaimTarget,
    removal: (String, u64),
    home: Option<Seq<char>>,
    delete: F,
    res: Result<(), String>,
    done: ReclaimOutcome,
    gone: UninstallOutcome,
)
    ensures
        action::is_attempt(item, home, delete, res) && !engine::safe_to_delete(item.path@, home)
            ==> res is Err,
        action::is_attempt(item, home, delete, res) && res is Ok ==> engine::safe_to_delete(
            item.path@,
            home,
        ) && call_ensures(delete, (&item.path,), res),
        action::is_attempt(item, home, delete, res) && engine::safe_to_delete(item.path@, home)
            ==> call_ensures(delete, (&item.path,), res),
        engine::is_outcome_of(done, target, home, delete) ==> {
            &&& done.path == target.path
            &&& done.bytes == target.bytes
            &&& done.name == target.name
            &&& done.ok ==> engine::safe_to_delete(target.path@, home) && done.error is None
                && exists|r: Result<(), String>| #[trigger]
                call_ensures(delete, (&target.path,), r) && r is Ok
            &&& !done.ok ==> done.error is Some
        },
        uninstall::is_removed(gone, removal, home, delete) ==> {
            &&& gone.path == removal.0
            &&& gone.bytes == removal.1
            &&& gone.ok ==> engine::safe_to_trash(removal.0@, home) && gone.error is None
                && exists|r: Result<(), String>| #[trigger]
                call_ensures(delete, (&removal.0,), r) && r is Ok
            &&& !gone.ok ==> gone.error is Some
        },
{
}

/// What a reclaim frees are the bytes of what was deleted.
pub proof fn what_was_deleted_is_freed(done: Seq<ReclaimOutcome>, o: ReclaimOutcome)
    ensures
        order::sum(Seq::<ReclaimOutcome>::empty(), engine::freed()) == 0,
        order::sum(done.push(o), engine::freed()) == order::sum(done, engine::freed()) + (if o.ok {
            o.bytes as int
        } else {
            0
        }),
{
    order::lemma_sum_push(done, o, engine::freed());
}

} // verus!
