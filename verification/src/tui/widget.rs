//! State for the shared interactive sized-list: navigation, multi-select (at least one copy
//! of a set of duplicates always stays unselected), and sorting.

use vstd::prelude::*;

use crate::order;
use crate::order::sort_stably;
use crate::path;
use crate::path::is_same_path;
use crate::text;
use crate::text::goes_before;

verus! {

/// What the meta column of a row shows.
#[derive(Debug)]
pub enum RowMeta {
    /// Nothing.
    Blank,
    /// Days since modified.
    Age(Option<u64>),
    /// A short tag, e.g. "safe" or "review" for caches.
    Tag(String),
    /// How sure a leftover belongs to an app, e.g. "high" or "med?".
    Confidence(String),
}

/// A row of the list.
#[derive(Debug)]
pub struct Row {
    pub bytes: u64,
    pub label: String,
    pub path: String,
    pub selected: bool,
    pub meta: RowMeta,
    /// Rows sharing a group id are one set of duplicates; at least one stays unselected.
    pub group: Option<usize>,
}

/// What a row of the list says.
pub struct RowView {
    pub bytes: u64,
    pub label: Seq<char>,
    pub path: Seq<char>,
    pub selected: bool,
    pub meta: MetaView,
    pub group: Option<usize>,
}

/// What the meta column says.
pub enum MetaView {
    Blank,
    Age(Option<u64>),
    Tag(Seq<char>),
    Confidence(Seq<char>),
}

/// What the meta column says.
pub open spec fn meta_view(m: RowMeta) -> MetaView {
    match m {
        RowMeta::Blank => MetaView::Blank,
        RowMeta::Age(d) => MetaView::Age(d),
        RowMeta::Tag(t) => MetaView::Tag(t@),
        RowMeta::Confidence(t) => MetaView::Confidence(t@),
    }
}

impl View for Row {
    type V = RowView;

    open spec fn view(&self) -> RowView {
        RowView {
            bytes: self.bytes,
            label: self.label@,
            path: self.path@,
            selected: self.selected,
            meta: meta_view(self.meta),
            group: self.group,
        }
    }
}

impl Row {
    /// An ungrouped, unselected row.
    pub fn new(bytes: u64, label: String, path: String, meta: RowMeta) -> (r: Row)
        ensures
            r == (Row { bytes, label, path, selected: false, meta, group: None }),
    {
        Row { bytes, label, path, selected: false, meta, group: None }
    }
}

/// How rows are ordered.
#[derive(Debug, Clone, Copy, PartialEq, Eq, Structural)]
pub enum Sort {
    Size,
    Age,
    Name,
}

/// The list.
#[derive(Debug)]
pub struct ListState {
    pub rows: Vec<Row>,
    pub cursor: usize,
    pub sort: Sort,
}

/// The age of a row in days; rows without one count as new.
pub open spec fn age_of(r: Row) -> u64 {
    match r.meta {
        RowMeta::Age(Some(d)) => d,
        _ => 0,
    }
}

/// Whether a row goes before another: the larger, the older, or the name that comes first
/// in lower case.
pub open spec fn row_before(sort: Sort) -> spec_fn(Row, Row) -> bool {
    match sort {
        Sort::Size => |a: Row, b: Row| a.bytes > b.bytes,
        Sort::Age => |a: Row, b: Row| age_of(a) > age_of(b),
        Sort::Name => |a: Row, b: Row|
            text::text_before(text::lowercase(a.label@), text::lowercase(b.label@)),
    }
}

/// Each way of sorting is an order in which ties are an equivalence.
pub proof fn rows_are_weakly_ordered(sort: Sort)
    ensures
        order::weak_order(row_before(sort)),
{
    let before = row_before(sort);
    match sort {
        Sort::Name => {
            assert forall|a: Row, b: Row, c: Row|
                #![trigger before(a, b), before(b, c)]
                before(a, b) && before(b, c) implies before(a, c) by {
                text::lemma_text_order_transitive(
                    text::lowercase(a.label@),
                    text::lowercase(b.label@),
                    text::lowercase(c.label@),
                );
            }
            assert forall|a: Row, b: Row, c: Row|
                #![trigger before(a, b), before(b, c)]
                !before(a, b) && !before(b, c) implies !before(a, c) by {
                let (x, y, z) = (
                    text::lowercase(a.label@),
                    text::lowercase(b.label@),
                    text::lowercase(c.label@),
                );
                if before(a, c) {
                    text::lemma_text_order_total(x, y);
                    text::lemma_text_order_total(y, z);
                    if x == y {
                    } else if y == z {
                    } else {
                        text::lemma_text_order_transitive(z, y, x);
                        text::lemma_text_order_transitive(x, z, x);
                        text::lemma_text_order_irreflexive(x);
                    }
                }
            }
            assert forall|a: Row| !#[trigger] before(a, a) by {
                text::lemma_text_order_irreflexive(text::lowercase(a.label@));
            }
        },
        _ => {},
    }
}

fn is_larger(a: &Row, b: &Row) -> (r: bool)
    ensures
        r == (a.bytes > b.bytes),
{
    a.bytes > b.bytes
}

fn row_age(r: &Row) -> (d: u64)
    ensures
        d == age_of(*r),
{
    match &r.meta {
        RowMeta::Age(age) => match age {
            Some(d) => *d,
            None => 0,
        },
        _ => 0,
    }
}

fn is_older(a: &Row, b: &Row) -> (r: bool)
    ensures
        r == (age_of(*a) > age_of(*b)),
{
    row_age(a) > row_age(b)
}

fn is_named_before(a: &Row, b: &Row) -> (r: bool)
    ensures
        r == text::text_before(text::lowercase(a.label@), text::lowercase(b.label@)),
{
    let x = a.label.as_str().to_lowercase();
    let y = b.label.as_str().to_lowercase();
    goes_before(x.as_str(), y.as_str())
}

fn sort_rows(rows: Vec<Row>, sort: Sort) -> (r: Vec<Row>)
    ensures
        r@ == order::ordered(rows@, row_before(sort)),
{
    match sort {
        Sort::Size => sort_stably(rows, is_larger, Ghost(row_before(Sort::Size))),
        Sort::Age => sort_stably(rows, is_older, Ghost(row_before(Sort::Age))),
        Sort::Name => sort_stably(rows, is_named_before, Ghost(row_before(Sort::Name))),
    }
}

/// Every set of duplicates has a copy that is not selected.
pub open spec fn keeps_a_copy(rows: Seq<Row>) -> bool {
    forall|i: int|
        0 <= i < rows.len() && (#[trigger] rows[i]).group is Some ==> has_unselected(
            rows,
            rows[i].group,
        )
}

/// Whether some row of a group is not selected.
pub open spec fn has_unselected(rows: Seq<Row>, group: Option<usize>) -> bool {
    exists|j: int| 0 <= j < rows.len() && (#[trigger] rows[j]).group == group && !rows[j].selected
}

/// Whether row `i` may be selected: no group, or another row of it is not selected.
pub open spec fn selectable(rows: Seq<Row>, i: int) -> bool {
    rows[i].group is None || exists|j: int|
        0 <= j < rows.len() && j != i && (#[trigger] rows[j]).group == rows[i].group
            && !rows[j].selected
}

/// `row`, selected or not.
pub open spec fn with_selected(row: Row, selected: bool) -> Row {
    Row { selected, ..row }
}

/// The rows after toggling row `i`: deselected, or selected where that leaves a copy.
pub open spec fn toggled(rows: Seq<Row>, i: int) -> Seq<Row> {
    if 0 <= i < rows.len() && (rows[i].selected || selectable(rows, i)) {
        rows.update(i, with_selected(rows[i], !rows[i].selected))
    } else {
        rows
    }
}

/// Whether row `i` is the first of a set of duplicates.
pub open spec fn first_copy(rows: Seq<Row>, i: int) -> bool {
    rows[i].group is Some && forall|j: int|
        0 <= j < i ==> (#[trigger] rows[j]).group != rows[i].group
}

/// Whether `i` is the first row with that path.
pub open spec fn first_with_path(rows: Seq<Row>, at: Seq<char>, i: int) -> bool {
    &&& 0 <= i < rows.len()
    &&& path::same_path(rows[i].path@, at)
    &&& forall|j: int| 0 <= j < i ==> !path::same_path((#[trigger] rows[j]).path@, at)
}

/// Bytes of a row that is selected.
pub open spec fn selected_weight() -> spec_fn(Row) -> nat {
    |r: Row|
        if r.selected {
            r.bytes as nat
        } else {
            0
        }
}

/// One for a row that is selected.
pub open spec fn selected_one() -> spec_fn(Row) -> nat {
    |r: Row|
        if r.selected {
            1
        } else {
            0
        }
}

/// The selected rows, in order.
pub open spec fn chosen(rows: Seq<Row>) -> Seq<Row>
    decreases rows.len(),
{
    if rows.len() == 0 {
        rows
    } else if rows.last().selected {
        chosen(rows.drop_last()).push(rows.last())
    } else {
        chosen(rows.drop_last())
    }
}

pub(crate) proof fn lemma_toggle_keeps_a_copy(rows: Seq<Row>, i: int)
    requires
        keeps_a_copy(rows),
    ensures
        keeps_a_copy(toggled(rows, i)),
{
    let after = toggled(rows, i);
    if after != rows {
        assert forall|a: int|
            0 <= a < after.len() && (#[trigger] after[a]).group is Some implies has_unselected(
            after,
            after[a].group,
        ) by {
            let g = after[a].group;
            assert(rows[a].group == g);
            if rows[i].selected {
                assert(has_unselected(rows, g));
                let j = choose|j: int|
                    0 <= j < rows.len() && (#[trigger] rows[j]).group == g && !rows[j].selected;
                assert(after[j].group == g && !after[j].selected);
            } else if g == rows[i].group {
                let j = choose|j: int|
                    0 <= j < rows.len() && j != i && (#[trigger] rows[j]).group == rows[i].group
                        && !rows[j].selected;
                assert(after[j].group == g && !after[j].selected);
            } else {
                assert(has_unselected(rows, g));
                let j = choose|j: int|
                    0 <= j < rows.len() && (#[trigger] rows[j]).group == g && !rows[j].selected;
                assert(after[j].group == g && !after[j].selected);
            }
        }
    }
}

pub(crate) proof fn lemma_order_keeps_a_copy(rows: Seq<Row>, sort: Sort)
    requires
        keeps_a_copy(rows),
    ensures
        keeps_a_copy(order::ordered(rows, row_before(sort))),
{
    let after = order::ordered(rows, row_before(sort));
    assert forall|a: int|
        0 <= a < after.len() && (#[trigger] after[a]).group is Some implies has_unselected(
        after,
        after[a].group,
    ) by {
        let g = after[a].group;
        order::lemma_ordered_contains(rows, after[a], row_before(sort));
        assert(after.contains(after[a]));
        let b = choose|b: int| 0 <= b < rows.len() && rows[b] == after[a];
        assert(has_unselected(rows, rows[b].group));
        let j = choose|j: int|
            0 <= j < rows.len() && (#[trigger] rows[j]).group == g && !rows[j].selected;
        order::lemma_ordered_contains(rows, rows[j], row_before(sort));
        assert(rows.contains(rows[j]));
        let k = choose|k: int| 0 <= k < after.len() && after[k] == rows[j];
        assert(after[k].group == g && !after[k].selected);
    }
}

impl ListState {
    /// The cursor is on a row, or at the top of an empty list.
    pub open spec fn wf(&self) -> bool {
        self.cursor == 0 || self.cursor < self.rows@.len()
    }

    /// A list of `rows`, sorted, with the cursor at the top.
    pub fn new(rows: Vec<Row>, sort: Sort) -> (r: ListState)
        ensures
            r.rows@ == order::ordered(rows@, row_before(sort)),
            r.cursor == 0,
            r.sort == sort,
            r.wf(),
            keeps_a_copy(rows@) ==> keeps_a_copy(r.rows@),
    {
        proof {
            if keeps_a_copy(rows@) {
                lemma_order_keeps_a_copy(rows@, sort);
            }
        }
        ListState { rows: sort_rows(rows, sort), cursor: 0, sort }
    }

    /// Moves the cursor up one row, as far as there is one.
    pub fn move_up(&mut self)
        ensures
            final(self).rows == old(self).rows,
            final(self).sort == old(self).sort,
            final(self).cursor == (if old(self).cursor == 0 {
                0
            } else {
                old(self).cursor - 1
            }),
            old(self).wf() ==> final(self).wf(),
    {
        if self.cursor > 0 {
            self.cursor = self.cursor - 1;
        }
    }

    /// Moves the cursor down one row, as far as there is one.
    pub fn move_down(&mut self)
        ensures
            final(self).rows == old(self).rows,
            final(self).sort == old(self).sort,
            final(self).cursor == (if old(self).cursor + 1 < old(self).rows@.len() {
                old(self).cursor + 1
            } else {
                old(self).cursor as int
            }),
            old(self).wf() ==> final(self).wf(),
    {
        let n = self.rows.len();
        if self.cursor < n && self.cursor + 1 < n {
            self.cursor = self.cursor + 1;
        }
    }

    /// True unless selecting row `i` would leave its set of duplicates fully selected.
    pub fn can_select(&self, i: usize) -> (r: bool)
        requires
            i < self.rows@.len(),
        ensures
            r == selectable(self.rows@, i as int),
    {
        let group = self.rows[i].group;
        if group.is_none() {
            return true;
        }
        let mut j: usize = 0;
        while j < self.rows.len()
            invariant
                j <= self.rows@.len(),
                i < self.rows@.len(),
                group == self.rows@[i as int].group,
                group is Some,
                forall|k: int|
                    0 <= k < j && k != i && (#[trigger] self.rows@[k]).group == group
                        ==> self.rows@[k].selected,
            decreases self.rows@.len() - j,
        {
            if j != i && same_group(self.rows[j].group, group) && !self.rows[j].selected {
                assert(self.rows@[j as int].group == group);
                return true;
            }
            j += 1;
        }
        false
    }

    /// Toggles the row under the cursor; the last unselected copy of a set of duplicates
    /// stays unselected.
    pub fn toggle(&mut self)
        ensures
            final(self).rows@ == toggled(old(self).rows@, old(self).cursor as int),
            final(self).cursor == old(self).cursor,
            final(self).sort == old(self).sort,
            keeps_a_copy(old(self).rows@) ==> keeps_a_copy(final(self).rows@),
    {
        proof {
            if keeps_a_copy(self.rows@) {
                lemma_toggle_keeps_a_copy(self.rows@, self.cursor as int);
            }
        }
        let i = self.cursor;
        if i >= self.rows.len() {
            return ;
        }
        if self.rows[i].selected {
            set_selected(&mut self.rows, i, false);
        } else if self.can_select(i) {
            set_selected(&mut self.rows, i, true);
        }
    }

    /// Selects every redundant row: all ungrouped rows, and all but the first of each set of
    /// duplicates (so one copy per set is always kept).
    pub fn select_all(&mut self)
        ensures
            final(self).rows@ == Seq::new(
                old(self).rows@.len(),
                |i: int| with_selected(old(self).rows@[i], !first_copy(old(self).rows@, i)),
            ),
            final(self).cursor == old(self).cursor,
            final(self).sort == old(self).sort,
            keeps_a_copy(final(self).rows@),
    {
        let ghost before = self.rows@;
        let ghost wanted = Seq::new(
            before.len(),
            |i: int| with_selected(before[i], !first_copy(before, i)),
        );
        let n = self.rows.len();
        let mut i: usize = 0;
        while i < n
            invariant
                i <= n,
                n == before.len(),
                self.rows@.len() == n,
                self.cursor == old(self).cursor,
                self.sort == old(self).sort,
                wanted == Seq::new(
                    before.len(),
                    |i: int| with_selected(before[i], !first_copy(before, i)),
                ),
                forall|k: int| 0 <= k < i ==> self.rows@[k] == #[trigger] wanted[k],
                forall|k: int| i <= k < n ==> #[trigger] self.rows@[k] == before[k],
            decreases n - i,
        {
            let group = self.rows[i].group;
            let mut first = group.is_some();
            let mut j: usize = 0;
            assert forall|k: int| 0 <= k < i implies self.rows@[k].group == (
            #[trigger] before[k]).group by {
                assert(self.rows@[k] == wanted[k]);
            }
            while j < i
                invariant
                    j <= i < n,
                    n == before.len(),
                    self.rows@.len() == n,
                    forall|k: int| 0 <= k < i ==> self.rows@[k].group == (#[trigger] before[k]).group,
                    first == (group is Some && forall|k: int|
                        0 <= k < j ==> (#[trigger] before[k]).group != group),
                decreases i - j,
            {
                assert(self.rows@[j as int].group == before[j as int].group);
                if same_group(self.rows[j].group, group) {
                    first = false;
                }
                j += 1;
            }
            assert(first == first_copy(before, i as int));
            set_selected(&mut self.rows, i, !first);
            i += 1;
        }
        assert(self.rows@ =~= wanted);
        proof {
            assert forall|a: int|
                0 <= a < wanted.len() && (#[trigger] wanted[a]).group is Some implies has_unselected(
                wanted,
                wanted[a].group,
            ) by {
                let f = first_index(before, before[a].group, a);
                lemma_first_index(before, before[a].group, a);
                assert(first_copy(before, f));
                assert(wanted[f].group == wanted[a].group && !wanted[f].selected);
            }
        }
    }

    /// Deselects every row.
    pub fn select_none(&mut self)
        ensures
            final(self).rows@ == Seq::new(
                old(self).rows@.len(),
                |i: int| with_selected(old(self).rows@[i], false),
            ),
            final(self).cursor == old(self).cursor,
            final(self).sort == old(self).sort,
            keeps_a_copy(final(self).rows@),
    {
        deselect_all(&mut self.rows);
    }

    /// Changes how rows are sorted; the cursor follows its row.
    pub fn set_sort(&mut self, sort: Sort)
        ensures
            final(self).rows@ == order::ordered(old(self).rows@, row_before(sort)),
            final(self).sort == sort,
            old(self).cursor < old(self).rows@.len() ==> first_with_path(
                final(self).rows@,
                old(self).rows@[old(self).cursor as int].path@,
                final(self).cursor as int,
            ),
            old(self).cursor >= old(self).rows@.len() ==> final(self).cursor == 0,
            final(self).wf(),
            keeps_a_copy(old(self).rows@) ==> keeps_a_copy(final(self).rows@),
    {
        proof {
            if keeps_a_copy(self.rows@) {
                lemma_order_keeps_a_copy(self.rows@, sort);
            }
        }
        let ghost before = self.rows@;
        let anchor = if self.cursor < self.rows.len() {
            Some(self.rows[self.cursor].path.clone())
        } else {
            None
        };
        let mut rows: Vec<Row> = Vec::new();
        std::mem::swap(&mut rows, &mut self.rows);
        self.rows = sort_rows(rows, sort);
        self.sort = sort;
        let mut at: usize = 0;
        if let Some(p) = anchor {
            proof {
                let x = before[self.cursor as int];
                assert(before.contains(x));
                order::lemma_ordered_contains(before, x, row_before(sort));
            }
            let ghost k = choose|k: int|
                0 <= k < self.rows@.len() && self.rows@[k] == before[self.cursor as int];
            while !is_same_path(self.rows[at].path.as_str(), p.as_str())
                invariant
                    at <= k < self.rows@.len(),
                    path::same_path(self.rows@[k].path@, p@),
                    forall|j: int|
                        0 <= j < at ==> !path::same_path((#[trigger] self.rows@[j]).path@, p@),
                decreases self.rows@.len() - at,
            {
                let len = self.rows.len();
                assert(at < len);
                at += 1;
            }
        }
        self.cursor = at;
    }

    /// The selected rows.
    pub fn selected(&self) -> (r: Vec<&Row>)
        ensures
            r@.len() == chosen(self.rows@).len(),
            forall|i: int| 0 <= i < r@.len() ==> *#[trigger] r@[i] == chosen(self.rows@)[i],
    {
        let mut r: Vec<&Row> = Vec::new();
        let mut i: usize = 0;
        assert(self.rows@.take(0) =~= Seq::<Row>::empty());
        while i < self.rows.len()
            invariant
                i <= self.rows@.len(),
                r@.len() == chosen(self.rows@.take(i as int)).len(),
                forall|k: int|
                    0 <= k < r@.len() ==> *#[trigger] r@[k] == chosen(self.rows@.take(i as int))[k],
            decreases self.rows@.len() - i,
        {
            proof {
                assert(self.rows@.take(i + 1).drop_last() =~= self.rows@.take(i as int));
                assert(self.rows@.take(i + 1).last() == self.rows@[i as int]);
            }
            if self.rows[i].selected {
                r.push(&self.rows[i]);
            }
            i += 1;
        }
        assert(self.rows@.take(self.rows@.len() as int) =~= self.rows@);
        r
    }

    /// The bytes of the selected rows.
    pub fn selected_bytes(&self) -> (r: u64)
        requires
            order::sum(self.rows@, selected_weight()) <= u64::MAX,
        ensures
            r == order::sum(self.rows@, selected_weight()),
    {
        let mut sum: u64 = 0;
        let mut i: usize = 0;
        assert(self.rows@.take(0) =~= Seq::<Row>::empty());
        while i < self.rows.len()
            invariant
                i <= self.rows@.len(),
                order::sum(self.rows@, selected_weight()) <= u64::MAX,
                sum == order::sum(self.rows@.take(i as int), selected_weight()),
            decreases self.rows@.len() - i,
        {
            proof {
                order::lemma_sum_step(self.rows@, i as int, selected_weight());
            }
            if self.rows[i].selected {
                sum += self.rows[i].bytes;
            }
            i += 1;
        }
        assert(self.rows@.take(self.rows@.len() as int) =~= self.rows@);
        sum
    }

    /// How many rows are selected.
    pub fn selected_count(&self) -> (r: usize)
        ensures
            r == order::sum(self.rows@, selected_one()),
            r == chosen(self.rows@).len(),
    {
        let mut count: usize = 0;
        let mut i: usize = 0;
        assert(self.rows@.take(0) =~= Seq::<Row>::empty());
        while i < self.rows.len()
            invariant
                i <= self.rows@.len(),
                count <= i,
                count == order::sum(self.rows@.take(i as int), selected_one()),
                count == chosen(self.rows@.take(i as int)).len(),
            decreases self.rows@.len() - i,
        {
            proof {
                order::lemma_sum_step(self.rows@, i as int, selected_one());
                assert(self.rows@.take(i + 1).drop_last() =~= self.rows@.take(i as int));
                assert(self.rows@.take(i + 1).last() == self.rows@[i as int]);
            }
            if self.rows[i].selected {
                count += 1;
            }
            i += 1;
        }
        assert(self.rows@.take(self.rows@.len() as int) =~= self.rows@);
        count
    }
}

spec fn first_index(rows: Seq<Row>, group: Option<usize>, a: int) -> int
    decreases a,
{
    if exists|j: int| 0 <= j < a && (#[trigger] rows[j]).group == group {
        let j = choose|j: int| 0 <= j < a && (#[trigger] rows[j]).group == group;
        first_index(rows, group, j)
    } else {
        a
    }
}

proof fn lemma_first_index(rows: Seq<Row>, group: Option<usize>, a: int)
    requires
        0 <= a < rows.len(),
        rows[a].group == group,
        group is Some,
    ensures
        0 <= first_index(rows, group, a) <= a,
        rows[first_index(rows, group, a)].group == group,
        first_copy(rows, first_index(rows, group, a)),
    decreases a,
{
    if exists|j: int| 0 <= j < a && (#[trigger] rows[j]).group == group {
        let j = choose|j: int| 0 <= j < a && (#[trigger] rows[j]).group == group;
        lemma_first_index(rows, group, j);
    }
}

fn same_group(a: Option<usize>, b: Option<usize>) -> (r: bool)
    ensures
        r == (a == b),
{
    match (a, b) {
        (Some(x), Some(y)) => x == y,
        (None, None) => true,
        _ => false,
    }
}

fn set_selected(rows: &mut Vec<Row>, i: usize, selected: bool)
    requires
        i < old(rows)@.len(),
    ensures
        final(rows)@ == old(rows)@.update(
            i as int,
            with_selected(old(rows)@[i as int], selected),
        ),
{
    rows[i].selected = selected;
}

/// Deselects every row of a list.
pub fn deselect_all(rows: &mut Vec<Row>)
    ensures
        final(rows)@ == Seq::new(
            old(rows)@.len(),
            |i: int| with_selected(old(rows)@[i], false),
        ),
        keeps_a_copy(final(rows)@),
{
    let ghost before = rows@;
    let n = rows.len();
    let mut i: usize = 0;
    while i < n
        invariant
            i <= n,
            n == before.len(),
            rows@.len() == n,
            forall|k: int| 0 <= k < i ==> #[trigger] rows@[k] == with_selected(before[k], false),
            forall|k: int| i <= k < n ==> #[trigger] rows@[k] == before[k],
        decreases n - i,
    {
        set_selected(rows, i, false);
        i += 1;
    }
    assert(rows@ =~= Seq::new(before.len(), |i: int| with_selected(before[i], false)));
    proof {
        let after = rows@;
        assert forall|a: int|
            0 <= a < after.len() && (#[trigger] after[a]).group is Some implies has_unselected(
            after,
            after[a].group,
        ) by {
            assert(!after[a].selected);
        }
    }
}

} // verus!
