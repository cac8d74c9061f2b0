//! The level-at-a-time size explorer. A directory's children are listed at once, without
//! sizes; the whole level is then sized in the background and filled in. Sized levels are
//! cached, so revisiting is instant.

use vstd::prelude::*;

use crate::double;
use crate::double::full_columns;
use crate::order;
use crate::order::sort_stably;
use crate::path;
use crate::path::is_same_path;
use crate::report;
use crate::report::{human, ChildSize};
use crate::text;
use crate::text::{align_right, decimal_text, goes_before, repeat_text, Page};
use crate::tui::keys;
use crate::tui::keys::{meaning_of, Key, Move};
use crate::tui::list;
use crate::tui::list::bar;
use crate::tui::screen::Screen;

verus! {

/// Columns of the size bar.
pub const BAR_WIDTH: usize = 16;

/// An entry of a level.
#[derive(Debug)]
pub struct Entry {
    pub name: String,
    pub path: String,
    /// `None` until the background sizing of the level finishes.
    pub bytes: Option<u64>,
}

/// A level of the explorer.
#[derive(Debug)]
pub struct Level {
    pub path: String,
    pub items: Vec<Entry>,
    pub selected: usize,
    /// Whether the sizes are still to come.
    pub loading: bool,
}

/// The sizes of a level, kept for the next visit.
#[derive(Debug)]
pub struct CachedSizes {
    pub path: String,
    pub sized: Vec<ChildSize>,
}

/// The explorer: the levels from the root down, and the sizes known.
#[derive(Debug)]
pub struct Explorer {
    pub stack: Vec<Level>,
    pub cache: Vec<CachedSizes>,
}

/// A child of a directory.
#[derive(Debug)]
pub struct Child {
    pub name: String,
    pub path: String,
}

/// By name, in lower case.
pub open spec fn named_first() -> spec_fn(Entry, Entry) -> bool {
    |a: Entry, b: Entry| text::text_before(text::lowercase(a.name@), text::lowercase(b.name@))
}

fn is_named_first(a: &Entry, b: &Entry) -> (r: bool)
    ensures
        r == text::text_before(text::lowercase(a.name@), text::lowercase(b.name@)),
{
    let x = a.name.as_str().to_lowercase();
    let y = b.name.as_str().to_lowercase();
    goes_before(x.as_str(), y.as_str())
}

/// The entries for the children of a directory, without sizes.
pub open spec fn unsized_entries(children: Seq<Child>) -> Seq<Entry> {
    Seq::new(
        children.len(),
        |i: int| Entry { name: children[i].name, path: children[i].path, bytes: None },
    )
}

/// The entries for sized children.
pub open spec fn sized_entries(sized: Seq<ChildSize>) -> Seq<Entry> {
    Seq::new(
        sized.len(),
        |i: int| Entry { name: sized[i].name, path: sized[i].path, bytes: Some(sized[i].bytes) },
    )
}

/// Lists a directory's children at once, by name (sizes unknown for now).
pub fn load_level(at: String, children: &Vec<Child>) -> (r: Level)
    ensures
        r.path == at,
        r.items@ == order::ordered(unsized_entries(children@), named_first()),
        r.selected == 0,
        r.loading,
{
    let ghost all = unsized_entries(children@);
    let mut items: Vec<Entry> = Vec::new();
    let mut i: usize = 0;
    assert(items@ =~= all.take(0));
    while i < children.len()
        invariant
            i <= children@.len(),
            all == unsized_entries(children@),
            items@ == all.take(i as int),
        decreases children@.len() - i,
    {
        let e = Entry {
            name: children[i].name.clone(),
            path: children[i].path.clone(),
            bytes: None,
        };
        assert(all[i as int] == e);
        items.push(e);
        assert(all.take(i as int).push(e) =~= all.take(i + 1));
        i += 1;
    }
    assert(all.take(all.len() as int) =~= all);
    Level {
        path: at,
        items: sort_stably(items, is_named_first, Ghost(named_first())),
        selected: 0,
        loading: true,
    }
}

fn entries_from(sized: &Vec<ChildSize>) -> (r: Vec<Entry>)
    ensures
        r@ == sized_entries(sized@),
{
    let ghost all = sized_entries(sized@);
    let mut items: Vec<Entry> = Vec::new();
    let mut i: usize = 0;
    assert(items@ =~= all.take(0));
    while i < sized.len()
        invariant
            i <= sized@.len(),
            all == sized_entries(sized@),
            items@ == all.take(i as int),
        decreases sized@.len() - i,
    {
        let e = Entry {
            name: sized[i].name.clone(),
            path: sized[i].path.clone(),
            bytes: Some(sized[i].bytes),
        };
        assert(all[i as int] == e);
        items.push(e);
        assert(all.take(i as int).push(e) =~= all.take(i + 1));
        i += 1;
    }
    assert(all.take(all.len() as int) =~= all);
    items
}

/// A level whose sizes are known.
pub fn level_from_sized(at: String, sized: &Vec<ChildSize>) -> (r: Level)
    ensures
        r.path == at,
        r.items@ == sized_entries(sized@),
        r.selected == 0,
        !r.loading,
{
    Level { path: at, items: entries_from(sized), selected: 0, loading: false }
}

/// The sizes last cached for a path.
pub open spec fn cached_sizes(cache: Seq<CachedSizes>, at: Seq<char>) -> Option<Seq<ChildSize>>
    decreases cache.len(),
{
    if cache.len() == 0 {
        None
    } else if path::same_path(cache.last().path@, at) {
        Some(cache.last().sized@)
    } else {
        cached_sizes(cache.drop_last(), at)
    }
}

/// The sizes last cached for a path.
pub fn find_cached<'a>(cache: &'a Vec<CachedSizes>, at: &str) -> (r: Option<&'a Vec<ChildSize>>)
    ensures
        match r {
            Some(sized) => cached_sizes(cache@, at@) == Some(sized@),
            None => cached_sizes(cache@, at@) is None,
        },
{
    let mut i: usize = cache.len();
    assert(cache@.take(cache@.len() as int) =~= cache@);
    while i > 0
        invariant
            i <= cache@.len(),
            cached_sizes(cache@, at@) == cached_sizes(cache@.take(i as int), at@),
        decreases i,
    {
        proof {
            assert(cache@.take(i as int).last() == cache@[i - 1]);
            assert(cache@.take(i as int).drop_last() =~= cache@.take(i - 1));
        }
        if is_same_path(cache[i - 1].path.as_str(), at) {
            return Some(&cache[i - 1].sized);
        }
        i -= 1;
    }
    None
}

fn copy_sizes(sized: &Vec<ChildSize>) -> (r: Vec<ChildSize>)
    ensures
        r@ == sized@,
{
    let mut r: Vec<ChildSize> = Vec::new();
    let mut i: usize = 0;
    while i < sized.len()
        invariant
            i <= sized@.len(),
            r@ == sized@.take(i as int),
        decreases sized@.len() - i,
    {
        let c = ChildSize {
            name: sized[i].name.clone(),
            path: sized[i].path.clone(),
            bytes: sized[i].bytes,
        };
        assert(c == sized@[i as int]);
        r.push(c);
        assert(sized@.take(i + 1) =~= sized@.take(i as int).push(sized@[i as int]));
        i += 1;
    }
    assert(sized@.take(sized@.len() as int) =~= sized@);
    r
}

/// The index of the first level with a path, from `i` on; past the end where there is none.
pub open spec fn level_from(stack: Seq<Level>, at: Seq<char>, i: int) -> int
    decreases stack.len() - i,
{
    if i < 0 || i >= stack.len() {
        stack.len() as int
    } else if path::same_path(stack[i].path@, at) {
        i
    } else {
        level_from(stack, at, i + 1)
    }
}

/// The index of the first item with a path, from `i` on; past the end where there is none.
pub open spec fn item_from(items: Seq<Entry>, at: Seq<char>, i: int) -> int
    decreases items.len() - i,
{
    if i < 0 || i >= items.len() {
        items.len() as int
    } else if path::same_path(items[i].path@, at) {
        i
    } else {
        item_from(items, at, i + 1)
    }
}

/// Where the cursor goes when the items of a level change: to the item that it was on, or to
/// the top where that is gone.
pub open spec fn followed(level: Level, items: Seq<Entry>) -> int {
    if level.selected < level.items@.len() {
        let k = item_from(items, level.items@[level.selected as int].path@, 0);
        if k < items.len() { k } else { 0 }
    } else {
        0
    }
}

/// The stack with sizes dropped into the first level with that path.
pub open spec fn with_sizes(
    before: Seq<Level>,
    after: Seq<Level>,
    at: Seq<char>,
    sized: Seq<ChildSize>,
) -> bool {
    let k = level_from(before, at, 0);
    if k < before.len() {
        &&& after.len() == before.len()
        &&& forall|i: int| 0 <= i < before.len() && i != k ==> #[trigger] after[i] == before[i]
        &&& after[k].path == before[k].path
        &&& after[k].items@ == sized_entries(sized)
        &&& !after[k].loading
        &&& after[k].selected == followed(before[k], sized_entries(sized))
    } else {
        after == before
    }
}

fn find_item(items: &Vec<Entry>, at: &str) -> (r: Option<usize>)
    ensures
        match r {
            Some(k) => k == item_from(items@, at@, 0) && k < items@.len(),
            None => item_from(items@, at@, 0) == items@.len(),
        },
{
    let mut i: usize = 0;
    while i < items.len()
        invariant
            i <= items@.len(),
            item_from(items@, at@, 0) == item_from(items@, at@, i as int),
        decreases items@.len() - i,
    {
        if is_same_path(items[i].path.as_str(), at) {
            return Some(i);
        }
        i += 1;
    }
    None
}

fn fill_level(level: &mut Level, items: Vec<Entry>)
    ensures
        final(level).path == old(level).path,
        final(level).items == items,
        !final(level).loading,
        final(level).selected == followed(*old(level), items@),
        final(level).wf(),
{
    let mut at: usize = 0;
    if level.selected < level.items.len() {
        if let Some(k) = find_item(&items, level.items[level.selected].path.as_str()) {
            at = k;
        }
    }
    level.items = items;
    level.loading = false;
    level.selected = at;
}

impl Level {
    /// The cursor is on an item, or at the top of an empty level.
    pub open spec fn wf(&self) -> bool {
        self.selected == 0 || self.selected < self.items@.len()
    }
}

impl Explorer {
    /// There is a level, and every cursor is in range.
    pub open spec fn wf(&self) -> bool {
        &&& self.stack@.len() > 0
        &&& forall|i: int| 0 <= i < self.stack@.len() ==> (#[trigger] self.stack@[i]).wf()
    }

    /// An explorer at a root.
    pub fn new(root: String, children: &Vec<Child>) -> (r: Explorer)
        ensures
            r.wf(),
            r.stack@.len() == 1,
            r.stack@[0].path == root,
            r.stack@[0].items@ == order::ordered(unsized_entries(children@), named_first()),
            r.stack@[0].selected == 0,
            r.stack@[0].loading,
            r.cache@.len() == 0,
    {
        let mut stack: Vec<Level> = Vec::new();
        stack.push(load_level(root, children));
        Explorer { stack, cache: Vec::new() }
    }

    /// The level that is shown.
    pub fn current(&self) -> (r: &Level)
        requires
            self.stack@.len() > 0,
        ensures
            *r == self.stack@.last(),
    {
        &self.stack[self.stack.len() - 1]
    }

    /// The level that is shown, to be changed.
    pub fn current_mut(&mut self) -> (r: &mut Level)
        requires
            old(self).stack@.len() > 0,
        ensures
            *r == old(self).stack@.last(),
            final(self).cache == old(self).cache,
            final(self).stack@ == old(self).stack@.update(
                old(self).stack@.len() - 1,
                *final(r),
            ),
    {
        let n = self.stack.len();
        &mut self.stack[n - 1]
    }

    /// Whether only the cursor of the level that is shown was moved.
    pub open spec fn moved_to(&self, before: Explorer, at: int) -> bool {
        &&& self.cache == before.cache
        &&& self.stack@ == before.stack@.update(
            before.stack@.len() - 1,
            Level { selected: at as usize, ..before.stack@.last() },
        )
    }

    /// Moves the cursor up one item, as far as there is one.
    pub fn move_up(&mut self)
        requires
            old(self).stack@.len() > 0,
        ensures
            final(self).moved_to(
                *old(self),
                if old(self).stack@.last().selected == 0 {
                    0
                } else {
                    old(self).stack@.last().selected - 1
                },
            ),
            old(self).wf() ==> final(self).wf(),
    {
        let ghost n = self.stack@.len();
        let level = self.current_mut();
        if level.selected > 0 {
            level.selected = level.selected - 1;
        }
        proof {
            let last = self.stack@.last();
            assert(self.stack@ =~= old(self).stack@.update(n - 1, last));
            assert(last == (Level { selected: last.selected, ..old(self).stack@.last() }));
        }
    }

    /// Moves the cursor down one item, as far as there is one.
    pub fn move_down(&mut self)
        requires
            old(self).stack@.len() > 0,
        ensures
            final(self).moved_to(
                *old(self),
                if old(self).stack@.last().selected + 1 < old(self).stack@.last().items@.len() {
                    old(self).stack@.last().selected + 1
                } else {
                    old(self).stack@.last().selected as int
                },
            ),
            old(self).wf() ==> final(self).wf(),
    {
        let ghost n = self.stack@.len();
        let level = self.current_mut();
        let len = level.items.len();
        if level.selected < len && level.selected + 1 < len {
            level.selected = level.selected + 1;
        }
        proof {
            let last = self.stack@.last();
            assert(self.stack@ =~= old(self).stack@.update(n - 1, last));
            assert(last == (Level { selected: last.selected, ..old(self).stack@.last() }));
        }
    }

    /// Leaves the level that is shown; false at the root, which stays.
    pub fn back(&mut self) -> (r: bool)
        requires
            old(self).stack@.len() > 0,
        ensures
            r == (old(self).stack@.len() > 1),
            final(self).cache == old(self).cache,
            final(self).stack@ == (if r {
                old(self).stack@.drop_last()
            } else {
                old(self).stack@
            }),
            old(self).wf() ==> final(self).wf(),
    {
        if self.stack.len() > 1 {
            let _ = self.stack.pop();
            true
        } else {
            false
        }
    }

    /// The path under the cursor.
    pub open spec fn at_cursor(&self) -> Option<String> {
        let level = self.stack@.last();
        if level.selected < level.items@.len() {
            Some(level.items@[level.selected as int].path)
        } else {
            None
        }
    }

    /// The path under the cursor.
    pub fn selected_path(&self) -> (r: Option<String>)
        requires
            self.stack@.len() > 0,
        ensures
            r == self.at_cursor(),
    {
        let level = self.current();
        if level.selected < level.items.len() {
            Some(level.items[level.selected].path.clone())
        } else {
            None
        }
    }

    /// Drops sized (and sorted) results into the matching level and caches them, keeping the
    /// cursor on the same item if it survived.
    pub fn apply_sizes(&mut self, at: &str, sized: &Vec<ChildSize>)
        ensures
            with_sizes(old(self).stack@, final(self).stack@, at@, sized@),
            final(self).cache@.len() == old(self).cache@.len() + 1,
            final(self).cache@.drop_last() == old(self).cache@,
            final(self).cache@.last().path@ == at@,
            final(self).cache@.last().sized@ == sized@,
            old(self).wf() ==> final(self).wf(),
    {
        let entry = CachedSizes { path: at.to_owned(), sized: copy_sizes(sized) };
        self.cache.push(entry);
        assert(self.cache@.drop_last() =~= old(self).cache@);
        let mut i: usize = 0;
        while i < self.stack.len()
            invariant
                i <= self.stack@.len(),
                self.stack@ == old(self).stack@,
                self.cache@.len() == old(self).cache@.len() + 1,
                self.cache@.drop_last() == old(self).cache@,
                self.cache@.last().path@ == at@,
                self.cache@.last().sized@ == sized@,
                level_from(self.stack@, at@, 0) == level_from(self.stack@, at@, i as int),
            decreases self.stack@.len() - i,
        {
            if is_same_path(self.stack[i].path.as_str(), at) {
                let items = entries_from(sized);
                fill_level(&mut self.stack[i], items);
                return ;
            }
            i += 1;
        }
    }

    /// Enters a path: from the cache where its sizes are known, else from a listing. What is
    /// no directory is not entered.
    pub fn descend(&mut self, is_dir: bool, children: &Vec<Child>) -> (r: bool)
        requires
            old(self).stack@.len() > 0,
        ensures
            r == (is_dir && old(self).at_cursor() is Some),
            final(self).cache == old(self).cache,
            !r ==> final(self).stack@ == old(self).stack@,
            r ==> {
                &&& final(self).stack@.len() == old(self).stack@.len() + 1
                &&& final(self).stack@.drop_last() == old(self).stack@
                &&& Some(final(self).stack@.last().path) == old(self).at_cursor()
                &&& final(self).stack@.last().selected == 0
                &&& match cached_sizes(old(self).cache@, final(self).stack@.last().path@) {
                    Some(sized) => {
                        &&& final(self).stack@.last().items@ == sized_entries(sized)
                        &&& !final(self).stack@.last().loading
                    },
                    None => {
                        &&& final(self).stack@.last().items@ == order::ordered(
                            unsized_entries(children@),
                            named_first(),
                        )
                        &&& final(self).stack@.last().loading
                    },
                }
            },
            old(self).wf() ==> final(self).wf(),
    {
        let target = match self.selected_path() {
            Some(p) => p,
            None => {
                return false;
            },
        };
        if !is_dir {
            return false;
        }
        let level = match find_cached(&self.cache, target.as_str()) {
            Some(sized) => level_from_sized(target, sized),
            None => load_level(target, children),
        };
        self.stack.push(level);
        assert(self.stack@.drop_last() =~= old(self).stack@);
        true
    }
}

/// What the level that is shown needs.
#[derive(Debug)]
pub enum Load {
    /// Nothing.
    Nothing,
    /// Size the children of a path in the background.
    Start(String),
}

/// What has to be done after a key.
#[derive(Debug)]
pub enum BrowseAction {
    /// Draw again.
    Stay,
    /// Leave the explorer.
    Quit,
    /// Enter the path under the cursor: look whether it is a directory, list it, and call
    /// `descend`, then `retarget`.
    Enter(String),
}

/// A running explorer, and the path that is being sized.
#[derive(Debug)]
pub struct Browser {
    pub explorer: Explorer,
    pub pending: Option<String>,
}

impl Browser {
    /// The explorer is in order.
    pub open spec fn wf(&self) -> bool {
        self.explorer.wf()
    }

    /// Sees to it that the level that is shown gets its sizes, unless something is being sized
    /// already: from the cache, or by asking for them.
    pub fn next_load(&mut self) -> (r: Load)
        requires
            old(self).wf(),
        ensures
            final(self).wf(),
            ({
                let level = old(self).explorer.stack@.last();
                let cached = cached_sizes(old(self).explorer.cache@, level.path@);
                if old(self).pending is Some || !level.loading {
                    *final(self) == *old(self) && r == Load::Nothing
                } else if cached is Some {
                    &&& r == Load::Nothing
                    &&& final(self).pending is None
                    &&& final(self).explorer.cache@.drop_last() == old(self).explorer.cache@
                    &&& final(self).explorer.cache@.last().path@ == level.path@
                    &&& final(self).explorer.cache@.last().sized@ == cached.unwrap()
                    &&& with_sizes(
                        old(self).explorer.stack@,
                        final(self).explorer.stack@,
                        level.path@,
                        cached.unwrap(),
                    )
                } else {
                    &&& r == Load::Start(level.path)
                    &&& final(self).pending == Some(level.path)
                    &&& final(self).explorer == old(self).explorer
                }
            }),
    {
        if self.pending.is_some() || !self.explorer.current().loading {
            return Load::Nothing;
        }
        let at = self.explorer.current().path.clone();
        let known = match find_cached(&self.explorer.cache, at.as_str()) {
            Some(sized) => Some(copy_sizes(sized)),
            None => None,
        };
        match known {
            Some(sized) => {
                self.explorer.apply_sizes(at.as_str(), &sized);
                Load::Nothing
            },
            None => {
                self.pending = Some(at.clone());
                Load::Start(at)
            },
        }
    }

    /// Takes in the sizes that were asked for; `None` where sizing failed.
    pub fn finish_load(&mut self, result: Option<Vec<ChildSize>>)
        requires
            old(self).wf(),
        ensures
            final(self).wf(),
            final(self).pending is None,
            match (old(self).pending, result) {
                (Some(at), Some(sized)) => with_sizes(
                    old(self).explorer.stack@,
                    final(self).explorer.stack@,
                    at@,
                    sized@,
                ) && final(self).explorer.cache@.drop_last() == old(self).explorer.cache@
                    && final(self).explorer.cache@.last().path@ == at@
                    && final(self).explorer.cache@.last().sized@ == sized@,
                _ => final(self).explorer == old(self).explorer,
            },
    {
        let mut pending: Option<String> = None;
        std::mem::swap(&mut pending, &mut self.pending);
        if let Some(at) = pending {
            if let Some(sized) = result {
                self.explorer.apply_sizes(at.as_str(), &sized);
            }
        }
    }

    /// Drops the sizing that runs when the level that is shown needs another one.
    pub fn retarget(&mut self)
        requires
            old(self).wf(),
        ensures
            final(self).explorer == old(self).explorer,
            final(self).pending == (match old(self).pending {
                Some(at) => if old(self).explorer.stack@.last().loading && !path::same_path(
                    at@,
                    old(self).explorer.stack@.last().path@,
                ) {
                    None
                } else {
                    Some(at)
                },
                None => None,
            }),
    {
        let drop = match &self.pending {
            Some(at) => {
                let level = self.explorer.current();
                level.loading && !is_same_path(at.as_str(), level.path.as_str())
            },
            None => false,
        };
        if drop {
            self.pending = None;
        }
    }

    /// What a key does.
    pub fn on_key(&mut self, key: Key) -> (r: BrowseAction)
        requires
            old(self).wf(),
        ensures
            final(self).wf(),
            final(self).pending == old(self).pending,
            match keys::meaning(key) {
                Move::Up => final(self).explorer.moved_to(
                    old(self).explorer,
                    if old(self).explorer.stack@.last().selected == 0 {
                        0
                    } else {
                        old(self).explorer.stack@.last().selected - 1
                    },
                ),
                Move::Down => final(self).explorer.moved_to(
                    old(self).explorer,
                    if old(self).explorer.stack@.last().selected + 1 < old(
                        self,
                    ).explorer.stack@.last().items@.len() {
                        old(self).explorer.stack@.last().selected + 1
                    } else {
                        old(self).explorer.stack@.last().selected as int
                    },
                ),
                Move::Back => {
                    &&& final(self).explorer.cache == old(self).explorer.cache
                    &&& final(self).explorer.stack@ == (if old(self).explorer.stack@.len() > 1 {
                        old(self).explorer.stack@.drop_last()
                    } else {
                        old(self).explorer.stack@
                    })
                },
                _ => final(self).explorer == old(self).explorer,
            },
            match keys::meaning(key) {
                Move::Quit => r == BrowseAction::Quit,
                Move::In => match old(self).explorer.at_cursor() {
                    Some(p) => r == BrowseAction::Enter(p),
                    None => r == BrowseAction::Stay,
                },
                _ => r == BrowseAction::Stay,
            },
    {
        match meaning_of(key) {
            Move::Quit => {
                return BrowseAction::Quit;
            },
            Move::Up => self.explorer.move_up(),
            Move::Down => self.explorer.move_down(),
            Move::Back => {
                let _ = self.explorer.back();
            },
            Move::In => {
                if let Some(p) = self.explorer.selected_path() {
                    return BrowseAction::Enter(p);
                }
            },
            Move::Nothing => {},
        }
        BrowseAction::Stay
    }
}

/// The bytes known of an entry.
pub open spec fn known_bytes() -> spec_fn(Entry) -> nat {
    |e: Entry|
        match e.bytes {
            Some(b) => b as nat,
            None => 0,
        }
}

/// The header of a level: while loading, what was scanned so far.
pub open spec fn level_header(level: Level, dirs: nat, scanned: nat) -> Seq<char> {
    if level.loading {
        " "@ + level.path@ + "   computing… "@ + report::human_text(scanned) + " scanned · "@
            + text::decimal(dirs) + " dirs"@
    } else {
        " "@ + level.path@ + "   "@ + report::human_text(
            order::sum(level.items@, known_bytes()),
        ) + "  ("@ + text::decimal(level.items@.len()) + " items)"@
    }
}

/// The header of a level: while loading, what was scanned so far.
pub fn header_line(level: &Level, dirs: u64, scanned: u64) -> (r: String)
    requires
        order::sum(level.items@, known_bytes()) <= u64::MAX,
    ensures
        r@ == level_header(*level, dirs as nat, scanned as nat),
{
    let mut r = " ".to_owned();
    r.append(level.path.as_str());
    if level.loading {
        r.append("   computing… ");
        r.append(human(scanned).as_str());
        r.append(" scanned · ");
        r.append(decimal_text(dirs).as_str());
        r.append(" dirs");
        return r;
    }
    let mut sum: u64 = 0;
    let mut i: usize = 0;
    assert(level.items@.take(0) =~= Seq::<Entry>::empty());
    while i < level.items.len()
        invariant
            i <= level.items@.len(),
            order::sum(level.items@, known_bytes()) <= u64::MAX,
            sum == order::sum(level.items@.take(i as int), known_bytes()),
        decreases level.items@.len() - i,
    {
        proof {
            order::lemma_sum_step(level.items@, i as int, known_bytes());
        }
        if let Some(b) = level.items[i].bytes {
            sum += b;
        }
        i += 1;
    }
    assert(level.items@.take(level.items@.len() as int) =~= level.items@);
    r.append("   ");
    r.append(human(sum).as_str());
    r.append("  (");
    r.append(decimal_text(level.items.len() as u64).as_str());
    r.append(" items)");
    r
}

/// An entry as it is drawn, where `max` is what a full bar stands for: a bar and the size,
/// or a gap while it is not known.
pub open spec fn entry_text(entry: Entry, max: nat) -> Seq<char> {
    match entry.bytes {
        Some(b) => " "@ + list::bar_text(
            double::columns(b as nat, max, BAR_WIDTH as nat),
            BAR_WIDTH as nat,
        ) + "  "@ + text::right_aligned(report::human_text(b as nat), 10) + "  "@ + entry.name@,
        None => " "@ + text::repeated(" "@, BAR_WIDTH as nat) + "  "@ + text::right_aligned(
            "—"@,
            10,
        ) + "  "@ + entry.name@,
    }
}

/// An entry as it is drawn, where `max` is what a full bar stands for.
pub fn entry_line(entry: &Entry, max: u64) -> (r: String)
    requires
        0 < max,
        entry.bytes matches Some(b) ==> b <= max,
    ensures
        r@ == entry_text(*entry, max as nat),
{
    let mut r = " ".to_owned();
    match entry.bytes {
        Some(b) => {
            let filled = full_columns(b, max, BAR_WIDTH);
            r.append(bar(filled, BAR_WIDTH).as_str());
            r.append("  ");
            r.append(align_right(human(b).as_str(), 10).as_str());
        },
        None => {
            r.append(repeat_text(" ", BAR_WIDTH).as_str());
            r.append("  ");
            r.append(align_right("—", 10).as_str());
        },
    }
    r.append("  ");
    r.append(entry.name.as_str());
    r
}

/// The key hints below a level.
pub fn footer_line(loading: bool) -> (r: &'static str)
    ensures
        r@ == (if loading {
            " ↑↓ move   → enter   ← back   q quit    (sizes still computing…)"@
        } else {
            " ↑↓ move   → enter   ← back   q quit"@
        }),
{
    if loading {
        " ↑↓ move   → enter   ← back   q quit    (sizes still computing…)"
    } else {
        " ↑↓ move   → enter   ← back   q quit"
    }
}

/// The largest known size of a level, at least 1: what a full bar stands for.
pub open spec fn scale_of(items: Seq<Entry>) -> nat
    decreases items.len(),
{
    if items.len() == 0 {
        1
    } else {
        let rest = scale_of(items.drop_last());
        let size = known_bytes()(items.last());
        if size > rest { size } else { rest }
    }
}

/// What a full bar stands for: the largest known size, at least 1.
pub fn bar_scale(items: &Vec<Entry>) -> (r: u64)
    ensures
        r == scale_of(items@),
        r >= 1,
{
    let mut max: u64 = 1;
    let mut i: usize = 0;
    assert(items@.take(0) =~= Seq::<Entry>::empty());
    while i < items.len()
        invariant
            i <= items@.len(),
            max >= 1,
            max == scale_of(items@.take(i as int)),
        decreases items@.len() - i,
    {
        proof {
            assert(items@.take(i + 1).drop_last() =~= items@.take(i as int));
            assert(items@.take(i + 1).last() == items@[i as int]);
        }
        if let Some(b) = items[i].bytes {
            if b > max {
                max = b;
            }
        }
        i += 1;
    }
    assert(items@.take(items@.len() as int) =~= items@);
    max
}

proof fn lemma_scale_bound(items: Seq<Entry>, i: int)
    requires
        0 <= i < items.len(),
    ensures
        items[i].bytes matches Some(b) ==> b <= scale_of(items),
    decreases items.len(),
{
    if i < items.len() - 1 {
        lemma_scale_bound(items.drop_last(), i);
    }
}

/// The entries as they are drawn; the largest size sets the scale of the bars.
pub open spec fn entry_texts(items: Seq<Entry>) -> Seq<Seq<char>> {
    Seq::new(items.len(), |i: int| entry_text(items[i], scale_of(items)))
}

/// The explorer as it is drawn. `dirs` and `scanned` say how far the sizing has come.
pub fn draw(explorer: &Explorer, dirs: u64, scanned: u64) -> (r: Screen)
    requires
        explorer.stack@.len() > 0,
        order::sum(explorer.stack@.last().items@, known_bytes()) <= u64::MAX,
    ensures
        ({
            let level = explorer.stack@.last();
            &&& r.top@ == Seq::empty().push(level_header(level, dirs as nat, scanned as nat))
            &&& r.lines@ == entry_texts(level.items@)
            &&& r.selected == (if level.items@.len() > 0 { Some(level.selected) } else { None })
            &&& r.footer@ == (if level.loading {
                " ↑↓ move   → enter   ← back   q quit    (sizes still computing…)"@
            } else {
                " ↑↓ move   → enter   ← back   q quit"@
            })
            &&& r.question is None
        }),
{
    let level = explorer.current();
    let items = &level.items;
    let max = bar_scale(items);
    let mut top = Page::new();
    top.push(header_line(level, dirs, scanned));
    let ghost all = entry_texts(items@);
    let mut lines = Page::new();
    let mut i: usize = 0;
    assert(lines@ =~= all.take(0));
    while i < items.len()
        invariant
            i <= items@.len(),
            max == scale_of(items@),
            0 < max,
            all == entry_texts(items@),
            lines@ == all.take(i as int),
        decreases items@.len() - i,
    {
        proof {
            lemma_scale_bound(items@, i as int);
        }
        let line = entry_line(&items[i], max);
        assert(all.take(i as int).push(line@) =~= all.take(i + 1));
        lines.push(line);
        i += 1;
    }
    assert(all.take(all.len() as int) =~= all);
    let selected = if items.len() > 0 {
        Some(level.selected)
    } else {
        None
    };
    Screen { top, lines, selected, footer: footer_line(level.loading), question: None }
}

} // verus!
