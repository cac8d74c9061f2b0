//! The session of the shared sized-list: what each key does, and what follows a round of
//! trashing.

use vstd::prelude::*;

use crate::double;
use crate::double::full_columns;
use crate::order;
use crate::path;
use crate::path::is_same_path;
use crate::report;
use crate::report::human;
use crate::text;
use crate::text::{align_right, decimal_text, repeat_text, Page};
use crate::tui::action::{TrashFailure, TrashItem, TrashOutcome};
use crate::tui::keys::Key;
use crate::tui::screen::Screen;
use crate::tui::widget;
use crate::tui::widget::{deselect_all, ListState, Row, RowMeta, Sort};

verus! {

/// Columns of the size bar.
pub const BAR_WIDTH: usize = 14;

/// What a list is called, and the home directory that its guard keeps safe.
#[derive(Debug)]
pub struct ListConfig {
    pub title: String,
    pub home: Option<String>,
}

/// A running list: its state, whether the confirm modal is open, and what was trashed so far.
#[derive(Debug)]
pub struct ListSession {
    pub state: ListState,
    pub confirming: bool,
    pub outcome: TrashOutcome,
}

/// What has to be done after a key.
#[derive(Debug)]
pub enum ListAction {
    /// Draw again.
    Stay,
    /// Leave the list.
    Quit,
    /// Show a path in the file manager.
    Reveal(String),
    /// Move these items to the Trash, then call `after_trash`.
    Trash(Vec<TrashItem>),
}

/// How rows are sorted next.
pub open spec fn next_sort(sort: Sort) -> Sort {
    match sort {
        Sort::Size => Sort::Age,
        Sort::Age => Sort::Name,
        Sort::Name => Sort::Size,
    }
}

/// The items for a list of rows.
pub open spec fn items_of(rows: Seq<Row>) -> Seq<TrashItem> {
    Seq::new(rows.len(), |i: int| TrashItem { path: rows[i].path, bytes: rows[i].bytes })
}

/// Whether one of the paths is `at`.
pub open spec fn lists_path(paths: Seq<Seq<char>>, at: Seq<char>) -> bool {
    exists|i: int| 0 <= i < paths.len() && path::same_path(#[trigger] paths[i], at)
}

/// The paths of a list of items.
pub open spec fn item_paths(items: Seq<TrashItem>) -> Seq<Seq<char>> {
    Seq::new(items.len(), |i: int| items[i].path@)
}

/// The paths of a list of failures.
pub open spec fn failure_paths(failures: Seq<TrashFailure>) -> Seq<Seq<char>> {
    Seq::new(failures.len(), |i: int| failures[i].path@)
}

/// Whether a row stays: it was not among the items, or it failed.
pub open spec fn stays(row: Row, items: Seq<Seq<char>>, failed: Seq<Seq<char>>) -> bool {
    !lists_path(items, row.path@) || lists_path(failed, row.path@)
}

/// The rows that stay after a round, none of them selected.
pub open spec fn remaining_rows(
    rows: Seq<Row>,
    items: Seq<Seq<char>>,
    failed: Seq<Seq<char>>,
) -> Seq<Row>
    decreases rows.len(),
{
    if rows.len() == 0 {
        rows
    } else {
        let rest = remaining_rows(rows.drop_last(), items, failed);
        if stays(rows.last(), items, failed) {
            rest.push(widget::with_selected(rows.last(), false))
        } else {
            rest
        }
    }
}

/// The rows that stay after a round, as they were.
pub open spec fn kept_rows(
    rows: Seq<Row>,
    items: Seq<Seq<char>>,
    failed: Seq<Seq<char>>,
) -> Seq<Row>
    decreases rows.len(),
{
    if rows.len() == 0 {
        rows
    } else {
        let rest = kept_rows(rows.drop_last(), items, failed);
        if stays(rows.last(), items, failed) { rest.push(rows.last()) } else { rest }
    }
}

proof fn lemma_kept_deselected(rows: Seq<Row>, items: Seq<Seq<char>>, failed: Seq<Seq<char>>)
    ensures
        remaining_rows(rows, items, failed) =~= Seq::new(
            kept_rows(rows, items, failed).len(),
            |i: int| widget::with_selected(kept_rows(rows, items, failed)[i], false),
        ),
    decreases rows.len(),
{
    if rows.len() > 0 {
        lemma_kept_deselected(rows.drop_last(), items, failed);
    }
}

fn in_items(items: &Vec<TrashItem>, at: &str) -> (r: bool)
    ensures
        r == lists_path(item_paths(items@), at@),
{
    let mut i: usize = 0;
    while i < items.len()
        invariant
            i <= items@.len(),
            forall|j: int| 0 <= j < i ==> !path::same_path(#[trigger] item_paths(items@)[j], at@),
        decreases items@.len() - i,
    {
        assert(item_paths(items@)[i as int] == items@[i as int].path@);
        if is_same_path(items[i].path.as_str(), at) {
            return true;
        }
        i += 1;
    }
    false
}

fn in_failures(failures: &Vec<TrashFailure>, at: &str) -> (r: bool)
    ensures
        r == lists_path(failure_paths(failures@), at@),
{
    let mut i: usize = 0;
    while i < failures.len()
        invariant
            i <= failures@.len(),
            forall|j: int|
                0 <= j < i ==> !path::same_path(#[trigger] failure_paths(failures@)[j], at@),
        decreases failures@.len() - i,
    {
        assert(failure_paths(failures@)[i as int] == failures@[i as int].path@);
        if is_same_path(failures[i].path.as_str(), at) {
            return true;
        }
        i += 1;
    }
    false
}

/// The state after a key that neither trashes nor reveals, while not confirming.
pub open spec fn moved(before: ListState, key: Key, after: ListState) -> bool {
    if key == Key::Up || key == Key::Char('k') {
        &&& after.rows == before.rows
        &&& after.sort == before.sort
        &&& after.cursor == (if before.cursor == 0 { 0 } else { before.cursor - 1 })
    } else if key == Key::Down || key == Key::Char('j') {
        &&& after.rows == before.rows
        &&& after.sort == before.sort
        &&& after.cursor == (if before.cursor + 1 < before.rows@.len() {
            before.cursor + 1
        } else {
            before.cursor as int
        })
    } else if key == Key::Char(' ') {
        &&& after.rows@ == widget::toggled(before.rows@, before.cursor as int)
        &&& after.cursor == before.cursor
        &&& after.sort == before.sort
    } else if key == Key::Char('a') {
        &&& after.rows@ == Seq::new(
            before.rows@.len(),
            |i: int|
                widget::with_selected(before.rows@[i], !widget::first_copy(before.rows@, i)),
        )
        &&& after.cursor == before.cursor
        &&& after.sort == before.sort
    } else if key == Key::Char('n') {
        &&& after.rows@ == Seq::new(
            before.rows@.len(),
            |i: int| widget::with_selected(before.rows@[i], false),
        )
        &&& after.cursor == before.cursor
        &&& after.sort == before.sort
    } else if key == Key::Char('s') {
        &&& after.sort == next_sort(before.sort)
        &&& after.rows@ == order::ordered(before.rows@, widget::row_before(after.sort))
        &&& if before.cursor < before.rows@.len() {
            widget::first_with_path(
                after.rows@,
                before.rows@[before.cursor as int].path@,
                after.cursor as int,
            )
        } else {
            after.cursor == 0
        }
    } else {
        after == before
    }
}

/// Whether a key opens the confirm modal, given that something is selected.
pub open spec fn asks_to_trash(key: Key) -> bool {
    key == Key::Char('d') || key == Key::Enter
}

impl ListSession {
    /// The cursor is in range, and every set of duplicates keeps a copy.
    pub open spec fn wf(&self) -> bool {
        self.state.wf() && widget::keeps_a_copy(self.state.rows@)
    }

    /// A session over `rows`.
    pub fn new(rows: Vec<Row>, sort: Sort) -> (r: ListSession)
        ensures
            r.state.rows@ == order::ordered(rows@, widget::row_before(sort)),
            r.state.cursor == 0,
            r.state.sort == sort,
            !r.confirming,
            r.outcome.freed_bytes == 0,
            r.outcome.failures@.len() == 0,
            widget::keeps_a_copy(rows@) ==> r.wf(),
    {
        ListSession {
            state: ListState::new(rows, sort),
            confirming: false,
            outcome: TrashOutcome::new(),
        }
    }

    /// What a key does. While confirming, `y` asks for the selected items to be trashed, `n`
    /// and escape close the modal, and every other key is ignored. Else `q` and escape quit.
    pub fn on_key(&mut self, key: Key) -> (r: ListAction)
        ensures
            final(self).outcome == old(self).outcome,
            old(self).wf() ==> final(self).wf(),
            old(self).confirming ==> {
                &&& final(self).state == old(self).state
                &&& final(self).confirming == !(key == Key::Char('n') || key == Key::Char('N')
                    || key == Key::Esc)
                &&& if key == Key::Char('y') || key == Key::Char('Y') {
                    r matches ListAction::Trash(items) && items@ == items_of(
                        widget::chosen(old(self).state.rows@),
                    )
                } else {
                    r == ListAction::Stay
                }
            },
            !old(self).confirming ==> {
                &&& final(self).confirming == (asks_to_trash(key) && widget::chosen(
                    old(self).state.rows@,
                ).len() > 0)
                &&& moved(old(self).state, key, final(self).state)
                &&& if key == Key::Char('q') || key == Key::Esc {
                    r == ListAction::Quit
                } else if key == Key::Char('f') && old(self).state.cursor
                    < old(self).state.rows@.len() {
                    r == ListAction::Reveal(
                        old(self).state.rows@[old(self).state.cursor as int].path,
                    )
                } else {
                    r == ListAction::Stay
                }
            },
    {
        if self.confirming {
            match key {
                Key::Char(c) => {
                    if c == 'y' || c == 'Y' {
                        return ListAction::Trash(selected_items(&self.state));
                    }
                    if c == 'n' || c == 'N' {
                        self.confirming = false;
                    }
                },
                Key::Esc => {
                    self.confirming = false;
                },
                _ => {},
            }
            return ListAction::Stay;
        }
        match key {
            Key::Esc => {
                return ListAction::Quit;
            },
            Key::Up => self.state.move_up(),
            Key::Down => self.state.move_down(),
            Key::Enter => {
                if self.state.selected_count() > 0 {
                    self.confirming = true;
                }
            },
            Key::Char(c) => {
                if c == 'q' {
                    return ListAction::Quit;
                } else if c == 'k' {
                    self.state.move_up();
                } else if c == 'j' {
                    self.state.move_down();
                } else if c == ' ' {
                    self.state.toggle();
                } else if c == 'a' {
                    self.state.select_all();
                } else if c == 'n' {
                    self.state.select_none();
                } else if c == 's' {
                    let next = match self.state.sort {
                        Sort::Size => Sort::Age,
                        Sort::Age => Sort::Name,
                        Sort::Name => Sort::Size,
                    };
                    self.state.set_sort(next);
                } else if c == 'f' {
                    if self.state.cursor < self.state.rows.len() {
                        return ListAction::Reveal(self.state.rows[self.state.cursor].path.clone());
                    }
                } else if c == 'd' {
                    if self.state.selected_count() > 0 {
                        self.confirming = true;
                    }
                }
            },
            _ => {},
        }
        ListAction::Stay
    }

    /// Takes in what became of a round of trashing: the rows that are gone leave the list, the
    /// others are deselected, the cursor stays in range, and the round is added up.
    pub fn after_trash(&mut self, items: &Vec<TrashItem>, round: TrashOutcome)
        requires
            old(self).outcome.freed_bytes + round.freed_bytes <= u64::MAX,
        ensures
            final(self).state.rows@ == remaining_rows(
                old(self).state.rows@,
                item_paths(items@),
                failure_paths(round.failures@),
            ),
            final(self).state.sort == old(self).state.sort,
            final(self).state.cursor == (if final(self).state.rows@.len() == 0 {
                0
            } else if old(self).state.cursor < final(self).state.rows@.len() {
                old(self).state.cursor as int
            } else {
                final(self).state.rows@.len() - 1
            }),
            !final(self).confirming,
            final(self).outcome.freed_bytes == old(self).outcome.freed_bytes + round.freed_bytes,
            final(self).outcome.failures@ == old(self).outcome.failures@ + round.failures@,
            final(self).wf(),
    {
        let ghost ips = item_paths(items@);
        let ghost fps = failure_paths(round.failures@);
        let ghost before = self.state.rows@;
        let mut old_rows: Vec<Row> = Vec::new();
        std::mem::swap(&mut old_rows, &mut self.state.rows);
        let mut rows = old_rows;
        let n = rows.len();
        let mut i: usize = 0;
        let mut seen: usize = 0;
        assert(before.take(0) =~= Seq::<Row>::empty());
        assert(rows@.take(0) =~= Seq::<Row>::empty());
        assert(rows@.skip(0) =~= before.skip(0));
        while seen < n
            invariant
                i <= rows@.len(),
                seen <= n,
                n == before.len(),
                rows@.len() - i == n - seen,
                ips == item_paths(items@),
                fps == failure_paths(round.failures@),
                rows@.take(i as int) == kept_rows(before.take(seen as int), ips, fps),
                rows@.skip(i as int) == before.skip(seen as int),
            decreases n - seen,
        {
            let len = rows.len();
            assert(i < len);
            proof {
                assert(before.take(seen + 1).drop_last() =~= before.take(seen as int));
                assert(rows@.skip(i as int)[0] == rows@[i as int]);
                assert(before.skip(seen as int)[0] == before[seen as int]);
                assert(before.take(seen + 1).last() == rows@[i as int]);
                assert(before.skip(seen as int).skip(1) =~= before.skip(seen + 1));
                assert(rows@.skip(i + 1) =~= rows@.skip(i as int).skip(1));
            }
            if !in_items(items, rows[i].path.as_str()) || in_failures(
                &round.failures,
                rows[i].path.as_str(),
            ) {
                proof {
                    assert(rows@.take(i + 1) =~= rows@.take(i as int).push(rows@[i as int]));
                }
                i += 1;
            } else {
                let ghost now = rows@;
                let _ = rows.remove(i);
                proof {
                    assert(rows@.take(i as int) =~= now.take(i as int));
                    assert(rows@.skip(i as int) =~= now.skip(i + 1));
                }
            }
            seen += 1;
        }
        proof {
            assert(rows@.take(i as int) =~= rows@);
            assert(before.take(n as int) =~= before);
            lemma_kept_deselected(before, ips, fps);
        }
        deselect_all(&mut rows);
        self.state.rows = rows;
        let left = self.state.rows.len();
        if left == 0 {
            self.state.cursor = 0;
        } else if self.state.cursor >= left {
            self.state.cursor = left - 1;
        }
        self.outcome.freed_bytes = self.outcome.freed_bytes + round.freed_bytes;
        let mut failures = round.failures;
        self.outcome.failures.append(&mut failures);
        self.confirming = false;
    }
}

/// The items for the selected rows.
pub fn selected_items(state: &ListState) -> (r: Vec<TrashItem>)
    ensures
        r@ == items_of(widget::chosen(state.rows@)),
{
    let rows = state.selected();
    let ghost all = widget::chosen(state.rows@);
    let mut r: Vec<TrashItem> = Vec::new();
    let mut i: usize = 0;
    assert(r@ =~= items_of(all).take(0));
    while i < rows.len()
        invariant
            i <= rows@.len(),
            rows@.len() == all.len(),
            forall|k: int| 0 <= k < rows@.len() ==> *#[trigger] rows@[k] == all[k],
            r@ == items_of(all).take(i as int),
        decreases rows@.len() - i,
    {
        let item = TrashItem { path: rows[i].path.clone(), bytes: rows[i].bytes };
        assert(items_of(all)[i as int] == item);
        r.push(item);
        assert(items_of(all).take(i as int).push(item) =~= items_of(all).take(i + 1));
        i += 1;
    }
    assert(items_of(all).take(all.len() as int) =~= items_of(all));
    r
}

/// The header of the list.
pub open spec fn header_text(title: Seq<char>, count: nat, bytes: nat) -> Seq<char> {
    " "@ + title + "   [selected: "@ + text::decimal(count) + " · "@ + report::human_text(bytes)
        + "]"@
}

/// The header of the list: the title and what is selected.
pub fn list_header(config: &ListConfig, state: &ListState) -> (r: String)
    requires
        order::sum(state.rows@, widget::selected_weight()) <= u64::MAX,
    ensures
        r@ == header_text(
            config.title@,
            order::sum(state.rows@, widget::selected_one()),
            order::sum(state.rows@, widget::selected_weight()),
        ),
{
    let mut r = " ".to_owned();
    r.append(config.title.as_str());
    r.append("   [selected: ");
    r.append(decimal_text(state.selected_count() as u64).as_str());
    r.append(" · ");
    r.append(human(state.selected_bytes()).as_str());
    r.append("]");
    r
}

/// What the meta column of a row shows.
pub open spec fn meta_text(meta: RowMeta) -> Seq<char> {
    match meta {
        RowMeta::Age(Some(d)) => text::decimal(d as nat) + "d"@,
        RowMeta::Age(None) => "?"@,
        RowMeta::Tag(t) => t@,
        RowMeta::Confidence(t) => t@,
        RowMeta::Blank => text::nil(),
    }
}

/// What the meta column of a row shows.
pub fn meta_column(meta: &RowMeta) -> (r: String)
    ensures
        r@ == meta_text(*meta),
{
    match meta {
        RowMeta::Age(age) => match age {
            Some(d) => {
                let mut r = decimal_text(*d);
                r.append("d");
                r
            },
            None => "?".to_owned(),
        },
        RowMeta::Tag(t) => t.clone(),
        RowMeta::Confidence(t) => t.clone(),
        RowMeta::Blank => {
            let r = String::new();
            assert(r@ =~= text::nil());
            r
        },
    }
}

/// A bar of `width` columns of which `filled` are full.
pub open spec fn bar_text(filled: nat, width: nat) -> Seq<char> {
    text::repeated("█"@, filled) + text::repeated("·"@, (width - filled) as nat)
}

/// A bar of `width` columns of which `filled` are full.
pub fn bar(filled: usize, width: usize) -> (r: String)
    requires
        filled <= width,
    ensures
        r@ == bar_text(filled as nat, width as nat),
{
    let mut r = repeat_text("█", filled);
    r.append(repeat_text("·", width - filled).as_str());
    r
}

/// A row as it is drawn, where `max` is what a full bar stands for.
pub open spec fn row_text(row: Row, max: nat) -> Seq<char> {
    " "@ + (if row.selected {
        "[x]"@
    } else {
        "[ ]"@
    }) + " "@ + bar_text(
        double::columns(row.bytes as nat, max, BAR_WIDTH as nat),
        BAR_WIDTH as nat,
    ) + "  "@ + text::right_aligned(report::human_text(row.bytes as nat), 10) + "  "@ + text::right_aligned(meta_text(row.meta), 6) + "  "@ + row.label@
}

/// A row as it is drawn, where `max` is what a full bar stands for.
pub fn row_line(row: &Row, max: u64) -> (r: String)
    requires
        0 < max,
        row.bytes <= max,
    ensures
        r@ == row_text(*row, max as nat),
{
    let filled = full_columns(row.bytes, max, BAR_WIDTH);
    let mut r = " ".to_owned();
    if row.selected {
        r.append("[x]");
    } else {
        r.append("[ ]");
    }
    r.append(" ");
    r.append(bar(filled, BAR_WIDTH).as_str());
    r.append("  ");
    r.append(align_right(human(row.bytes).as_str(), 10).as_str());
    r.append("  ");
    r.append(align_right(meta_column(&row.meta).as_str(), 6).as_str());
    r.append("  ");
    r.append(row.label.as_str());
    r
}

/// The question of the confirm modal.
pub open spec fn confirm_text(count: nat, bytes: nat) -> Seq<char> {
    "Move "@ + text::decimal(count) + " item(s) ("@ + report::human_text(bytes)
        + ") to the Trash?\n\n[y] confirm    [n] cancel"@
}

/// The question of the confirm modal.
pub fn confirm_question(count: usize, bytes: u64) -> (r: String)
    ensures
        r@ == confirm_text(count as nat, bytes as nat),
{
    let mut r = "Move ".to_owned();
    r.append(decimal_text(count as u64).as_str());
    r.append(" item(s) (");
    r.append(human(bytes).as_str());
    r.append(") to the Trash?\n\n[y] confirm    [n] cancel");
    r
}

/// Where a box of `want` columns starts, and how many it gets, when centred in `have` columns
/// that start at `start`.
pub fn centered(start: u16, have: u16, want: u16) -> (r: (u16, u16))
    requires
        start + have <= u16::MAX,
    ensures
        r.0 == start + (if have >= want { (have - want) / 2 } else { 0 }),
        r.1 == (if want <= have { want } else { have }),
        start <= r.0,
        r.0 + r.1 <= start + have,
{
    if have >= want {
        (start + (have - want) / 2, want)
    } else {
        (start, have)
    }
}

/// The largest size of a list, at least 1: what a full bar stands for.
pub open spec fn scale_of(rows: Seq<Row>) -> nat
    decreases rows.len(),
{
    if rows.len() == 0 {
        1
    } else {
        let rest = scale_of(rows.drop_last());
        if rows.last().bytes > rest { rows.last().bytes as nat } else { rest }
    }
}

/// What a full bar stands for: the largest size, at least 1.
pub fn bar_scale(rows: &Vec<Row>) -> (r: u64)
    ensures
        r == scale_of(rows@),
        r >= 1,
{
    let mut max: u64 = 1;
    let mut i: usize = 0;
    assert(rows@.take(0) =~= Seq::<Row>::empty());
    while i < rows.len()
        invariant
            i <= rows@.len(),
            max >= 1,
            max == scale_of(rows@.take(i as int)),
        decreases rows@.len() - i,
    {
        proof {
            assert(rows@.take(i + 1).drop_last() =~= rows@.take(i as int));
            assert(rows@.take(i + 1).last() == rows@[i as int]);
        }
        if rows[i].bytes > max {
            max = rows[i].bytes;
        }
        i += 1;
    }
    assert(rows@.take(rows@.len() as int) =~= rows@);
    max
}

proof fn lemma_scale_bound(rows: Seq<Row>, i: int)
    requires
        0 <= i < rows.len(),
    ensures
        rows[i].bytes <= scale_of(rows),
    decreases rows.len(),
{
    if i < rows.len() - 1 {
        lemma_scale_bound(rows.drop_last(), i);
    }
}

/// The rows as they are drawn; the largest size sets the scale of the bars.
pub open spec fn row_texts(rows: Seq<Row>) -> Seq<Seq<char>> {
    Seq::new(rows.len(), |i: int| row_text(rows[i], scale_of(rows)))
}

/// The list as it is drawn.
pub fn draw(session: &ListSession, config: &ListConfig) -> (r: Screen)
    requires
        order::sum(session.state.rows@, widget::selected_weight()) <= u64::MAX,
    ensures
        ({
            let rows = session.state.rows@;
            let count = order::sum(rows, widget::selected_one());
            let bytes = order::sum(rows, widget::selected_weight());
            &&& r.top@ == Seq::empty().push(header_text(config.title@, count, bytes))
            &&& r.lines@ == row_texts(rows)
            &&& r.selected == (if rows.len() > 0 { Some(session.state.cursor) } else { None })
            &&& r.footer@
                == " ↑↓ move  space select  a all  n none  s sort  d Trash  f reveal  q quit"@
            &&& text::opt_text(r.question) == (if session.confirming {
                Some(confirm_text(count, bytes))
            } else {
                None
            })
        }),
{
    let rows = &session.state.rows;
    let mut top = Page::new();
    top.push(list_header(config, &session.state));
    let max = bar_scale(rows);
    let ghost all = row_texts(rows@);
    let mut lines = Page::new();
    let mut i: usize = 0;
    assert(lines@ =~= all.take(0));
    while i < rows.len()
        invariant
            i <= rows@.len(),
            max == scale_of(rows@),
            0 < max,
            all == row_texts(rows@),
            lines@ == all.take(i as int),
        decreases rows@.len() - i,
    {
        proof {
            lemma_scale_bound(rows@, i as int);
        }
        let line = row_line(&rows[i], max);
        assert(all.take(i as int).push(line@) =~= all.take(i + 1));
        lines.push(line);
        i += 1;
    }
    assert(all.take(all.len() as int) =~= all);
    let selected = if rows.len() > 0 {
        Some(session.state.cursor)
    } else {
        None
    };
    let question = if session.confirming {
        Some(confirm_question(session.state.selected_count(), session.state.selected_bytes()))
    } else {
        None
    };
    Screen {
        top,
        lines,
        selected,
        footer: " ↑↓ move  space select  a all  n none  s sort  d Trash  f reveal  q quit",
        question,
    }
}

} // verus!
