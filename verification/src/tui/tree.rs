//! The size explorer. A level is listed at once; files know their size, folders are sized in
//! the background, each size filling in its row when it is known. Sized levels are cached, and
//! parent levels keep sizing while one drills deeper. Exploration only, no deletion.

use vstd::prelude::*;

use crate::double;
use crate::double::full_columns;
use crate::order;
use crate::order::sort_stably;
use crate::path;
use crate::path::is_same_path;
use crate::report;
use crate::report::{human, DiskSpace};
use crate::text;
use crate::text::{align_left, align_right, decimal_text, goes_before, Page};
use crate::tui::keys;
use crate::tui::keys::{meaning_of, Key, Move};
use crate::tui::list;
use crate::tui::list::bar;
use crate::tui::screen::Screen;

verus! {

/// Columns of the size bar.
pub const BAR_WIDTH: usize = 16;

/// An entry of a level.
#[derive(Debug)]
pub struct Entry {
    pub name: String,
    pub path: String,
    pub is_dir: bool,
    /// Files know their size at load; directories are `None` until sized.
    pub bytes: Option<u64>,
}

/// What a listing says of an entry.
#[derive(Debug, Clone, Copy, PartialEq, Eq, Structural)]
pub enum ListedKind {
    Dir,
    /// A regular file with its length.
    File(u64),
    /// A symlink, a device, or something that cannot be read.
    Skipped,
}

/// An entry of a directory listing.
#[derive(Debug)]
pub struct Listed {
    pub name: String,
    pub path: String,
    pub kind: ListedKind,
}

/// A level of the explorer.
#[derive(Debug)]
pub struct Level {
    pub path: String,
    pub items: Vec<Entry>,
    pub selected: usize,
    /// Whether folders are being sized.
    pub sizing: bool,
    /// Folders that are not sized yet.
    pub pending: usize,
}

/// A sized level, kept for the next visit.
#[derive(Debug)]
pub struct Cached {
    pub path: String,
    pub items: Vec<Entry>,
}

/// The explorer: the levels from the root down, and the sized levels.
#[derive(Debug)]
pub struct Explorer {
    pub stack: Vec<Level>,
    pub cache: Vec<Cached>,
    /// Capacity of the volume the root lives on.
    pub disk: Option<DiskSpace>,
}

/// A folder size that came in.
#[derive(Debug)]
pub struct SizeNews {
    pub path: String,
    pub bytes: u64,
}

/// What came in for a level: folder sizes, and whether no more will come.
#[derive(Debug)]
pub struct LevelNews {
    pub sizes: Vec<SizeNews>,
    pub closed: bool,
}

fn copy_entry(e: &Entry) -> (r: Entry)
    ensures
        r == *e,
{
    Entry { name: e.name.clone(), path: e.path.clone(), is_dir: e.is_dir, bytes: e.bytes }
}

fn copy_entries(v: &Vec<Entry>) -> (r: Vec<Entry>)
    ensures
        r@ == v@,
{
    let mut r: Vec<Entry> = Vec::new();
    let mut i: usize = 0;
    while i < v.len()
        invariant
            i <= v@.len(),
            r@ == v@.take(i as int),
        decreases v@.len() - i,
    {
        r.push(copy_entry(&v[i]));
        assert(v@.take(i + 1) =~= v@.take(i as int).push(v@[i as int]));
        i += 1;
    }
    assert(v@.take(v@.len() as int) =~= v@);
    r
}

/// The items last cached for a path.
pub open spec fn cached_items(cache: Seq<Cached>, at: Seq<char>) -> Option<Seq<Entry>>
    decreases cache.len(),
{
    if cache.len() == 0 {
        None
    } else if path::same_path(cache.last().path@, at) {
        Some(cache.last().items@)
    } else {
        cached_items(cache.drop_last(), at)
    }
}

/// The items last cached for a path.
pub fn find_cached<'a>(cache: &'a Vec<Cached>, at: &str) -> (r: Option<&'a Vec<Entry>>)
    ensures
        match r {
            Some(items) => cached_items(cache@, at@) == Some(items@),
            None => cached_items(cache@, at@) is None,
        },
{
    let mut i: usize = cache.len();
    assert(cache@.take(cache@.len() as int) =~= cache@);
    while i > 0
        invariant
            i <= cache@.len(),
            cached_items(cache@, at@) == cached_items(cache@.take(i as int), at@),
        decreases i,
    {
        proof {
            assert(cache@.take(i as int).last() == cache@[i - 1]);
            assert(cache@.take(i as int).drop_last() =~= cache@.take(i - 1));
        }
        if is_same_path(cache[i - 1].path.as_str(), at) {
            return Some(&cache[i - 1].items);
        }
        i -= 1;
    }
    None
}

/// The size of an entry; unknown counts as nothing.
pub open spec fn size_of(e: Entry) -> u64 {
    match e.bytes {
        Some(b) => b,
        None => 0,
    }
}

/// Largest first.
pub open spec fn bigger() -> spec_fn(Entry, Entry) -> bool {
    |a: Entry, b: Entry| size_of(a) > size_of(b)
}

/// By name, in lower case.
pub open spec fn named_first() -> spec_fn(Entry, Entry) -> bool {
    |a: Entry, b: Entry| text::text_before(text::lowercase(a.name@), text::lowercase(b.name@))
}

fn entry_size(e: &Entry) -> (r: u64)
    ensures
        r == size_of(*e),
{
    match e.bytes {
        Some(b) => b,
        None => 0,
    }
}

fn is_bigger(a: &Entry, b: &Entry) -> (r: bool)
    ensures
        r == (size_of(*a) > size_of(*b)),
{
    entry_size(a) > entry_size(b)
}

fn is_named_first(a: &Entry, b: &Entry) -> (r: bool)
    ensures
        r == text::text_before(text::lowercase(a.name@), text::lowercase(b.name@)),
{
    let x = a.name.as_str().to_lowercase();
    let y = b.name.as_str().to_lowercase();
    goes_before(x.as_str(), y.as_str())
}

/// Whether `i` is the first item with that path.
pub open spec fn first_at(items: Seq<Entry>, at: Seq<char>, i: int) -> bool {
    &&& 0 <= i < items.len()
    &&& path::same_path(items[i].path@, at)
    &&& forall|j: int| 0 <= j < i ==> !path::same_path((#[trigger] items[j]).path@, at)
}

/// Whether `after` is `before` with its items largest first and the cursor on the same item.
pub open spec fn is_sorted_level(before: Level, after: Level) -> bool {
    &&& after.path == before.path
    &&& after.sizing == before.sizing
    &&& after.pending == before.pending
    &&& after.items@ == order::ordered(before.items@, bigger())
    &&& before.selected < before.items@.len() ==> first_at(
        after.items@,
        before.items@[before.selected as int].path@,
        after.selected as int,
    )
    &&& before.selected >= before.items@.len() ==> after.selected == 0
}

impl Level {
    /// The cursor is on an item, or at the top of an empty level.
    pub open spec fn wf(&self) -> bool {
        self.selected == 0 || self.selected < self.items@.len()
    }
}

/// Re-sorts a level largest first, keeping the cursor on the same item.
pub fn sort_by_size(level: &mut Level)
    ensures
        is_sorted_level(*old(level), *final(level)),
        final(level).wf(),
{
    let ghost before = level.items@;
    let anchor = if level.selected < level.items.len() {
        Some(level.items[level.selected].path.clone())
    } else {
        None
    };
    let mut items: Vec<Entry> = Vec::new();
    std::mem::swap(&mut items, &mut level.items);
    level.items = sort_stably(items, is_bigger, Ghost(bigger()));
    let mut at: usize = 0;
    if let Some(p) = anchor {
        proof {
            let x = before[level.selected as int];
            assert(before.contains(x));
            order::lemma_ordered_contains(before, x, bigger());
        }
        let ghost k = choose|k: int|
            0 <= k < level.items@.len() && level.items@[k] == before[level.selected as int];
        while !is_same_path(level.items[at].path.as_str(), p.as_str())
            invariant
                at <= k < level.items@.len(),
                path::same_path(level.items@[k].path@, p@),
                forall|j: int|
                    0 <= j < at ==> !path::same_path((#[trigger] level.items@[j]).path@, p@),
            decreases level.items@.len() - at,
        {
            let len = level.items.len();
            assert(at < len);
            at += 1;
        }
    }
    level.selected = at;
}

/// The entries of a listing: folders without a size, files with theirs, nothing else.
pub open spec fn entries_of(listing: Seq<Listed>) -> Seq<Entry>
    decreases listing.len(),
{
    if listing.len() == 0 {
        Seq::empty()
    } else {
        let rest = entries_of(listing.drop_last());
        let l = listing.last();
        match l.kind {
            ListedKind::Dir => rest.push(
                Entry { name: l.name, path: l.path, is_dir: true, bytes: None },
            ),
            ListedKind::File(len) => rest.push(
                Entry { name: l.name, path: l.path, is_dir: false, bytes: Some(len) },
            ),
            ListedKind::Skipped => rest,
        }
    }
}

/// One for a folder.
pub open spec fn folder() -> spec_fn(Entry) -> nat {
    |e: Entry|
        if e.is_dir {
            1
        } else {
            0
        }
}

/// Whether `level` is what is built for a path: from the cache, or from a listing by name,
/// which without folders is at once sorted by size.
pub open spec fn is_built(
    level: Level,
    at: String,
    cache: Seq<Cached>,
    listing: Seq<Listed>,
) -> bool {
    &&& level.path == at
    &&& match cached_items(cache, at@) {
        Some(items) => {
            &&& level.items@ == items
            &&& level.selected == 0
            &&& !level.sizing
            &&& level.pending == 0
        },
        None => {
            let named = order::ordered(entries_of(listing), named_first());
            let dirs = order::sum(named, folder());
            &&& level.pending == dirs
            &&& level.sizing == (dirs > 0)
            &&& if dirs > 0 {
                level.items@ == named && level.selected == 0
            } else {
                &&& level.items@ == order::ordered(named, bigger())
                &&& named.len() > 0 ==> first_at(
                    level.items@,
                    named[0].path@,
                    level.selected as int,
                )
                &&& named.len() == 0 ==> level.selected == 0
            }
        },
    }
}

/// Lists a directory (files sized, folders to be sized), or takes it from the cache.
pub fn build_level(at: String, cache: &Vec<Cached>, listing: &Vec<Listed>) -> (r: Level)
    ensures
        is_built(r, at, cache@, listing@),
        r.wf(),
{
    if let Some(items) = find_cached(cache, at.as_str()) {
        return Level {
            path: at,
            items: copy_entries(items),
            selected: 0,
            sizing: false,
            pending: 0,
        };
    }
    let mut items: Vec<Entry> = Vec::new();
    let mut i: usize = 0;
    assert(listing@.take(0) =~= Seq::<Listed>::empty());
    while i < listing.len()
        invariant
            i <= listing@.len(),
            items@ == entries_of(listing@.take(i as int)),
        decreases listing@.len() - i,
    {
        let l = &listing[i];
        proof {
            assert(listing@.take(i + 1).drop_last() =~= listing@.take(i as int));
            assert(listing@.take(i + 1).last() == *l);
        }
        match l.kind {
            ListedKind::Dir => {
                items.push(
                    Entry { name: l.name.clone(), path: l.path.clone(), is_dir: true, bytes: None },
                );
            },
            ListedKind::File(len) => {
                items.push(
                    Entry {
                        name: l.name.clone(),
                        path: l.path.clone(),
                        is_dir: false,
                        bytes: Some(len),
                    },
                );
            },
            ListedKind::Skipped => {},
        }
        i += 1;
    }
    assert(listing@.take(listing@.len() as int) =~= listing@);
    let items = sort_stably(items, is_named_first, Ghost(named_first()));
    let mut pending: usize = 0;
    let mut k: usize = 0;
    assert(items@.take(0) =~= Seq::<Entry>::empty());
    while k < items.len()
        invariant
            k <= items@.len(),
            pending <= k,
            pending == order::sum(items@.take(k as int), folder()),
        decreases items@.len() - k,
    {
        proof {
            order::lemma_sum_step(items@, k as int, folder());
        }
        if items[k].is_dir {
            pending += 1;
        }
        k += 1;
    }
    assert(items@.take(items@.len() as int) =~= items@);
    let mut level = Level { path: at, items, selected: 0, sizing: pending > 0, pending };
    if !level.sizing {
        sort_by_size(&mut level);
    }
    level
}

/// The paths of the folders of a level, which are to be sized.
pub open spec fn folders_of(items: Seq<Entry>) -> Seq<String>
    decreases items.len(),
{
    if items.len() == 0 {
        Seq::empty()
    } else if items.last().is_dir {
        folders_of(items.drop_last()).push(items.last().path)
    } else {
        folders_of(items.drop_last())
    }
}

/// The paths of the folders of a level, which are to be sized.
pub fn folders_to_size(level: &Level) -> (r: Vec<String>)
    ensures
        r@ == folders_of(level.items@),
{
    let mut r: Vec<String> = Vec::new();
    let mut i: usize = 0;
    assert(level.items@.take(0) =~= Seq::<Entry>::empty());
    while i < level.items.len()
        invariant
            i <= level.items@.len(),
            r@ == folders_of(level.items@.take(i as int)),
        decreases level.items@.len() - i,
    {
        proof {
            assert(level.items@.take(i + 1).drop_last() =~= level.items@.take(i as int));
            assert(level.items@.take(i + 1).last() == level.items@[i as int]);
        }
        if level.items[i].is_dir {
            r.push(level.items[i].path.clone());
        }
        i += 1;
    }
    assert(level.items@.take(level.items@.len() as int) =~= level.items@);
    r
}

/// The index of the first item with a path, from `i` on; past the end where there is none.
pub open spec fn index_from(items: Seq<Entry>, at: Seq<char>, i: int) -> int
    decreases items.len() - i,
{
    if i < 0 || i >= items.len() {
        items.len() as int
    } else if path::same_path(items[i].path@, at) {
        i
    } else {
        index_from(items, at, i + 1)
    }
}

/// The items with one folder size filled in.
pub open spec fn sized_item(items: Seq<Entry>, news: SizeNews) -> Seq<Entry> {
    let k = index_from(items, news.path@, 0);
    if k < items.len() {
        items.update(k, Entry { bytes: Some(news.bytes), ..items[k] })
    } else {
        items
    }
}

/// The items with folder sizes filled in, one after the other.
pub open spec fn sized_items(items: Seq<Entry>, news: Seq<SizeNews>) -> Seq<Entry>
    decreases news.len(),
{
    if news.len() == 0 {
        items
    } else {
        sized_item(sized_items(items, news.drop_last()), news.last())
    }
}

/// Folders still pending after some sizes came in, none where no more will come.
pub open spec fn still_pending(pending: nat, sizes: nat, closed: bool) -> nat {
    if closed || pending <= sizes { 0 } else { (pending - sizes) as nat }
}

/// The level with what came in filled in, before it is sorted.
pub open spec fn is_filled(before: Level, news: LevelNews, after: Level) -> bool {
    &&& after.path == before.path
    &&& after.selected == before.selected
    &&& after.items@ == sized_items(before.items@, news.sizes@)
    &&& after.pending == still_pending(before.pending as nat, news.sizes@.len(), news.closed)
    &&& after.sizing == (after.pending > 0)
}

/// Whether `after` is `before` with what came in: nothing changes where nothing is sized;
/// a level that is done is sorted by size.
pub open spec fn is_drained(before: Level, news: LevelNews, after: Level) -> bool {
    if !before.sizing {
        after == before
    } else {
        exists|filled: Level| #[trigger] is_filled(before, news, filled) && if filled.pending == 0 {
            is_sorted_level(filled, after)
        } else {
            after == filled
        }
    }
}

proof fn lemma_sized_len(items: Seq<Entry>, news: Seq<SizeNews>)
    ensures
        sized_items(items, news).len() == items.len(),
    decreases news.len(),
{
    if news.len() > 0 {
        lemma_sized_len(items, news.drop_last());
        lemma_index_from(sized_items(items, news.drop_last()), news.last().path@, 0);
    }
}

proof fn lemma_index_from(items: Seq<Entry>, at: Seq<char>, i: int)
    requires
        0 <= i,
    ensures
        0 <= index_from(items, at, i) <= items.len(),
    decreases items.len() - i,
{
    if i < items.len() {
        lemma_index_from(items, at, i + 1);
    }
}

fn fill_one(items: &mut Vec<Entry>, news: &SizeNews)
    ensures
        final(items)@ == sized_item(old(items)@, *news),
{
    let mut i: usize = 0;
    while i < items.len()
        invariant
            i <= items@.len(),
            items@ == old(items)@,
            index_from(items@, news.path@, 0) == index_from(items@, news.path@, i as int),
        decreases items@.len() - i,
    {
        if is_same_path(items[i].path.as_str(), news.path.as_str()) {
            items[i].bytes = Some(news.bytes);
            return ;
        }
        i += 1;
    }
}

/// Takes in what came in for a level. Returns whether the level was just finished.
pub fn drain_level(level: &mut Level, news: &LevelNews) -> (r: bool)
    ensures
        is_drained(*old(level), *news, *final(level)),
        r == (old(level).sizing && still_pending(
            old(level).pending as nat,
            news.sizes@.len(),
            news.closed,
        ) == 0),
        old(level).wf() ==> final(level).wf(),
{
    if !level.sizing {
        return false;
    }
    let ghost start = *level;
    let mut i: usize = 0;
    assert(news.sizes@.take(0) =~= Seq::<SizeNews>::empty());
    while i < news.sizes.len()
        invariant
            i <= news.sizes@.len(),
            level.path == start.path,
            level.selected == start.selected,
            level.sizing == start.sizing,
            level.items@ == sized_items(start.items@, news.sizes@.take(i as int)),
            level.pending == still_pending(start.pending as nat, i as nat, false),
        decreases news.sizes@.len() - i,
    {
        proof {
            assert(news.sizes@.take(i + 1).drop_last() =~= news.sizes@.take(i as int));
            assert(news.sizes@.take(i + 1).last() == news.sizes@[i as int]);
        }
        fill_one(&mut level.items, &news.sizes[i]);
        if level.pending > 0 {
            level.pending = level.pending - 1;
        }
        i += 1;
    }
    assert(news.sizes@.take(news.sizes@.len() as int) =~= news.sizes@);
    if news.closed {
        level.pending = 0;
    }
    proof {
        lemma_sized_len(start.items@, news.sizes@);
    }
    level.sizing = level.pending > 0;
    assert(is_filled(start, *news, *level));
    if level.pending == 0 {
        sort_by_size(level);
        true
    } else {
        false
    }
}

/// The cache with the items of finished levels added.
pub open spec fn is_cached_after(
    before: Seq<Cached>,
    after: Seq<Cached>,
    levels: Seq<Level>,
    finished: Seq<bool>,
) -> bool
    decreases levels.len(),
{
    if levels.len() == 0 {
        after == before
    } else if finished[levels.len() - 1] {
        &&& after.len() > 0
        &&& after.last().path == levels.last().path
        &&& after.last().items@ == levels.last().items@
        &&& is_cached_after(before, after.drop_last(), levels.drop_last(), finished)
    } else {
        is_cached_after(before, after, levels.drop_last(), finished)
    }
}

/// Which levels were just finished.
pub open spec fn finished_levels(stack: Seq<Level>, news: Seq<LevelNews>) -> Seq<bool> {
    Seq::new(
        stack.len(),
        |i: int|
            stack[i].sizing && still_pending(
                stack[i].pending as nat,
                news[i].sizes@.len(),
                news[i].closed,
            ) == 0,
    )
}

/// What has to be done after a key.
#[derive(Debug)]
pub enum TreeAction {
    /// Draw again.
    Stay,
    /// Leave the explorer.
    Quit,
    /// Enter a folder: list it unless it is cached, then call `enter`.
    Enter(String),
}

impl Explorer {
    /// There is a level, and every cursor is in range.
    pub open spec fn wf(&self) -> bool {
        &&& self.stack@.len() > 0
        &&& forall|i: int| 0 <= i < self.stack@.len() ==> (#[trigger] self.stack@[i]).wf()
    }

    /// An explorer at a root.
    pub fn new(root: String, listing: &Vec<Listed>, disk: Option<DiskSpace>) -> (r: Explorer)
        ensures
            r.wf(),
            r.stack@.len() == 1,
            is_built(r.stack@[0], root, Seq::empty(), listing@),
            r.cache@.len() == 0,
            r.disk == disk,
    {
        let cache: Vec<Cached> = Vec::new();
        let level = build_level(root, &cache, listing);
        let mut stack: Vec<Level> = Vec::new();
        stack.push(level);
        Explorer { stack, cache, disk }
    }

    /// The level that is shown.
    pub fn current(&self) -> (r: &Level)
        requires
            self.stack@.len() > 0,
        ensures
            *r == self.stack@.last(),
    {
        &self.stack[self.stack.len() - 1]
    }

    /// Moves the cursor up one item, as far as there is one.
    pub fn move_up(&mut self)
        requires
            old(self).stack@.len() > 0,
        ensures
            final(self).moved_to(
                *old(self),
                if old(self).stack@.last().selected == 0 {
                    0
                } else {
                    old(self).stack@.last().selected - 1
                },
            ),
            old(self).wf() ==> final(self).wf(),
    {
        let n = self.stack.len();
        if self.stack[n - 1].selected > 0 {
            let at = self.stack[n - 1].selected - 1;
            self.stack[n - 1].selected = at;
        }
        proof {
            let last = self.stack@.last();
            assert(self.stack@ =~= old(self).stack@.update(n - 1, last));
            assert(last == (Level { selected: last.selected, ..old(self).stack@.last() }));
        }
    }

    /// Moves the cursor down one item, as far as there is one.
    pub fn move_down(&mut self)
        requires
            old(self).stack@.len() > 0,
        ensures
            final(self).moved_to(
                *old(self),
                if old(self).stack@.last().selected + 1 < old(self).stack@.last().items@.len() {
                    old(self).stack@.last().selected + 1
                } else {
                    old(self).stack@.last().selected as int
                },
            ),
            old(self).wf() ==> final(self).wf(),
    {
        let n = self.stack.len();
        let len = self.stack[n - 1].items.len();
        let at = self.stack[n - 1].selected;
        if at < len && at + 1 < len {
            self.stack[n - 1].selected = at + 1;
        }
        proof {
            let last = self.stack@.last();
            assert(self.stack@ =~= old(self).stack@.update(n - 1, last));
            assert(last == (Level { selected: last.selected, ..old(self).stack@.last() }));
        }
    }

    /// Whether only the cursor of the level that is shown was moved.
    pub open spec fn moved_to(&self, before: Explorer, at: int) -> bool {
        &&& self.cache == before.cache
        &&& self.disk == before.disk
        &&& self.stack@ == before.stack@.update(
            before.stack@.len() - 1,
            Level { selected: at as usize, ..before.stack@.last() },
        )
    }

    /// Leaves the level that is shown, unless it is the root.
    pub fn back(&mut self)
        requires
            old(self).stack@.len() > 0,
        ensures
            final(self).cache == old(self).cache,
            final(self).disk == old(self).disk,
            final(self).stack@ == (if old(self).stack@.len() > 1 {
                old(self).stack@.drop_last()
            } else {
                old(self).stack@
            }),
            old(self).wf() ==> final(self).wf(),
    {
        if self.stack.len() > 1 {
            let _ = self.stack.pop();
        }
    }

    /// The folder under the cursor.
    pub open spec fn target(&self) -> Option<String> {
        let level = self.stack@.last();
        if level.selected < level.items@.len() && level.items@[level.selected as int].is_dir {
            Some(level.items@[level.selected as int].path)
        } else {
            None
        }
    }

    /// The folder under the cursor, which can be entered.
    pub fn descend(&self) -> (r: Option<String>)
        requires
            self.stack@.len() > 0,
        ensures
            r == self.target(),
    {
        let level = self.current();
        if level.selected < level.items.len() && level.items[level.selected].is_dir {
            Some(level.items[level.selected].path.clone())
        } else {
            None
        }
    }

    /// Whether a folder has to be listed before it is entered.
    pub fn needs_listing(&self, at: &str) -> (r: bool)
        ensures
            r == (cached_items(self.cache@, at@) is None),
    {
        find_cached(&self.cache, at).is_none()
    }

    /// Enters a folder.
    pub fn enter(&mut self, target: String, listing: &Vec<Listed>)
        ensures
            final(self).cache == old(self).cache,
            final(self).disk == old(self).disk,
            final(self).stack@.len() == old(self).stack@.len() + 1,
            final(self).stack@.drop_last() == old(self).stack@,
            is_built(final(self).stack@.last(), target, old(self).cache@, listing@),
            old(self).wf() ==> final(self).wf(),
    {
        let level = build_level(target, &self.cache, listing);
        self.stack.push(level);
        assert(self.stack@.drop_last() =~= old(self).stack@);
    }

    /// Takes in what came in for every level (parents keep sizing in the background), caching
    /// those that were just finished.
    pub fn drain_all(&mut self, news: &Vec<LevelNews>)
        requires
            news@.len() == old(self).stack@.len(),
        ensures
            final(self).disk == old(self).disk,
            final(self).stack@.len() == old(self).stack@.len(),
            forall|i: int|
                0 <= i < news@.len() ==> is_drained(
                    old(self).stack@[i],
                    news@[i],
                    #[trigger] final(self).stack@[i],
                ),
            is_cached_after(
                old(self).cache@,
                final(self).cache@,
                final(self).stack@,
                finished_levels(old(self).stack@, news@),
            ),
            old(self).wf() ==> final(self).wf(),
    {
        let ghost start = self.stack@;
        let ghost done = finished_levels(start, news@);
        let n = self.stack.len();
        let mut i: usize = 0;
        assert(self.stack@.take(0) =~= Seq::<Level>::empty());
        while i < n
            invariant
                i <= n,
                n == start.len(),
                news@.len() == n,
                self.stack@.len() == n,
                self.disk == old(self).disk,
                done == finished_levels(start, news@),
                forall|k: int|
                    0 <= k < i ==> is_drained(start[k], news@[k], #[trigger] self.stack@[k]),
                forall|k: int| 0 <= k < i && start[k].wf() ==> (#[trigger] self.stack@[k]).wf(),
                forall|k: int| i <= k < n ==> #[trigger] self.stack@[k] == start[k],
                is_cached_after(
                    old(self).cache@,
                    self.cache@,
                    self.stack@.take(i as int),
                    done,
                ),
            decreases n - i,
        {
            let ghost levels = self.stack@;
            assert(self.stack@[i as int] == start[i as int]);
            let finished = drain_level(&mut self.stack[i], &news[i]);
            proof {
                assert(self.stack@ =~= levels.update(i as int, self.stack@[i as int]));
                assert(self.stack@.take(i as int) =~= levels.take(i as int));
                assert(self.stack@.take(i + 1).drop_last() =~= levels.take(i as int));
                assert(self.stack@.take(i + 1).last() == self.stack@[i as int]);
                assert(finished == done[i as int]);
            }
            if finished {
                let ghost before = self.cache@;
                let entry = Cached {
                    path: self.stack[i].path.clone(),
                    items: copy_entries(&self.stack[i].items),
                };
                self.cache.push(entry);
                assert(self.cache@.drop_last() =~= before);
            }
            i += 1;
        }
        assert(self.stack@.take(n as int) =~= self.stack@);
    }

    /// What a key does: moves, quits, goes back, or asks to enter the folder under the cursor.
    pub fn on_key(&mut self, key: Key) -> (r: TreeAction)
        requires
            old(self).wf(),
        ensures
            final(self).wf(),
            match keys::meaning(key) {
                Move::Up => final(self).moved_to(
                    *old(self),
                    if old(self).stack@.last().selected == 0 {
                        0
                    } else {
                        old(self).stack@.last().selected - 1
                    },
                ),
                Move::Down => final(self).moved_to(
                    *old(self),
                    if old(self).stack@.last().selected + 1 < old(
                        self,
                    ).stack@.last().items@.len() {
                        old(self).stack@.last().selected + 1
                    } else {
                        old(self).stack@.last().selected as int
                    },
                ),
                Move::Back => {
                    &&& final(self).cache == old(self).cache
                    &&& final(self).disk == old(self).disk
                    &&& final(self).stack@ == (if old(self).stack@.len() > 1 {
                        old(self).stack@.drop_last()
                    } else {
                        old(self).stack@
                    })
                },
                _ => *final(self) == *old(self),
            },
            match keys::meaning(key) {
                Move::Quit => r == TreeAction::Quit,
                Move::In => match old(self).target() {
                    Some(p) => r == TreeAction::Enter(p),
                    None => r == TreeAction::Stay,
                },
                _ => r == TreeAction::Stay,
            },
    {
        match meaning_of(key) {
            Move::Quit => {
                return TreeAction::Quit;
            },
            Move::Up => self.move_up(),
            Move::Down => self.move_down(),
            Move::Back => self.back(),
            Move::In => {
                if let Some(p) = self.descend() {
                    return TreeAction::Enter(p);
                }
            },
            Move::Nothing => {},
        }
        TreeAction::Stay
    }
}

/// The bytes known of an entry.
pub open spec fn known_bytes() -> spec_fn(Entry) -> nat {
    |e: Entry| size_of(e) as nat
}

/// The bytes known of a list of entries.
pub fn total_known(items: &Vec<Entry>) -> (r: u64)
    requires
        order::sum(items@, known_bytes()) <= u64::MAX,
    ensures
        r == order::sum(items@, known_bytes()),
{
    let mut sum: u64 = 0;
    let mut i: usize = 0;
    assert(items@.take(0) =~= Seq::<Entry>::empty());
    while i < items.len()
        invariant
            i <= items@.len(),
            order::sum(items@, known_bytes()) <= u64::MAX,
            sum == order::sum(items@.take(i as int), known_bytes()),
        decreases items@.len() - i,
    {
        proof {
            order::lemma_sum_step(items@, i as int, known_bytes());
        }
        sum += entry_size(&items[i]);
        i += 1;
    }
    assert(items@.take(items@.len() as int) =~= items@);
    sum
}

/// The header of a level.
pub open spec fn level_header(level: Level) -> Seq<char> {
    let known = report::human_text(order::sum(level.items@, known_bytes()));
    if level.pending > 0 {
        " "@ + level.path@ + "   "@ + known + " so far · sizing "@ + text::decimal(
            level.pending as nat,
        ) + " folder(s)…   ("@ + text::decimal(level.items@.len()) + " items)"@
    } else {
        " "@ + level.path@ + "   "@ + known + "   ("@ + text::decimal(level.items@.len())
            + " items)"@
    }
}

/// The header of a level: its path, the size known so far, and what is still being sized.
pub fn header_line(level: &Level) -> (r: String)
    requires
        order::sum(level.items@, known_bytes()) <= u64::MAX,
    ensures
        r@ == level_header(*level),
{
    let known = total_known(&level.items);
    let mut r = " ".to_owned();
    r.append(level.path.as_str());
    r.append("   ");
    r.append(human(known).as_str());
    if level.pending > 0 {
        r.append(" so far · sizing ");
        r.append(decimal_text(level.pending as u64).as_str());
        r.append(" folder(s)…   (");
    } else {
        r.append("   (");
    }
    r.append(decimal_text(level.items.len() as u64).as_str());
    r.append(" items)");
    r
}

/// The share of `used` that `tree` is, in percent, rounded down; nothing of nothing is none.
pub open spec fn percent_of(tree: nat, used: nat) -> nat {
    if used == 0 {
        0
    } else if tree * 100 <= u64::MAX {
        (tree * 100) / used
    } else {
        (u64::MAX as nat) / used
    }
}

/// The share of `used` that `tree` is, in percent.
pub fn percent(tree: u64, used: u64) -> (r: u64)
    ensures
        r == percent_of(tree as nat, used as nat),
{
    if used == 0 {
        return 0;
    }
    if tree <= u64::MAX / 100 {
        (tree * 100) / used
    } else {
        u64::MAX / used
    }
}

/// What the root says of the whole volume, so that a tree is never taken for the disk.
pub open spec fn volume_line(explorer: Explorer) -> Seq<char> {
    let level = explorer.stack@.last();
    match explorer.disk {
        Some(disk) => if explorer.stack@.len() != 1 {
            text::nil()
        } else if level.pending == 0 {
            let tree = order::sum(level.items@, known_bytes());
            let elsewhere = if disk.used >= tree { (disk.used - tree) as nat } else { 0 };
            " volume "@ + report::human_text(disk.used as nat) + " used of "@ + report::human_text(
                disk.total as nat,
            ) + " · this tree is "@ + text::decimal(percent_of(tree, disk.used as nat)) + "% · "@
                + report::human_text(elsewhere)
                + " elsewhere (system files + snapshots — see: deepscan space)"@
        } else {
            " volume "@ + report::human_text(disk.used as nat) + " used of "@ + report::human_text(
                disk.total as nat,
            ) + " · sizing this tree…"@
        },
        None => text::nil(),
    }
}

/// What the root says of the whole volume; deeper levels say nothing.
pub fn reconciliation(explorer: &Explorer) -> (r: String)
    requires
        explorer.stack@.len() > 0,
        order::sum(explorer.stack@.last().items@, known_bytes()) <= u64::MAX,
    ensures
        r@ == volume_line(*explorer),
{
    let level = explorer.current();
    if explorer.stack.len() == 1 {
        if let Some(disk) = &explorer.disk {
            let mut r = " volume ".to_owned();
            r.append(human(disk.used).as_str());
            r.append(" used of ");
            r.append(human(disk.total).as_str());
            if level.pending == 0 {
                let tree = total_known(&level.items);
                let elsewhere = if disk.used >= tree {
                    disk.used - tree
                } else {
                    0
                };
                r.append(" · this tree is ");
                r.append(decimal_text(percent(tree, disk.used)).as_str());
                r.append("% · ");
                r.append(human(elsewhere).as_str());
                r.append(" elsewhere (system files + snapshots — see: deepscan space)");
            } else {
                r.append(" · sizing this tree…");
            }
            return r;
        }
    }
    let none = String::new();
    assert(none@ =~= text::nil());
    none
}

/// The frame of the spinner at a tick.
pub open spec fn frame_of(tick: nat) -> Seq<char> {
    let k = tick % 10;
    if k == 0 { "⠋"@ } else if k == 1 { "⠙"@ } else if k == 2 { "⠹"@ } else if k == 3 { "⠸"@ }
    else if k == 4 { "⠼"@ } else if k == 5 { "⠴"@ } else if k == 6 { "⠦"@ } else if k == 7 { "⠧"@ }
    else if k == 8 { "⠇"@ } else { "⠏"@ }
}

/// The frame of the spinner at a tick.
pub fn spinner_frame(tick: usize) -> (r: &'static str)
    ensures
        r@ == frame_of(tick as nat),
{
    match tick % 10 {
        0 => "⠋",
        1 => "⠙",
        2 => "⠹",
        3 => "⠸",
        4 => "⠼",
        5 => "⠴",
        6 => "⠦",
        7 => "⠧",
        8 => "⠇",
        _ => "⠏",
    }
}

/// An entry as it is drawn, where `max` is what a full bar stands for: a bar and the size,
/// or a spinner while it is being sized.
pub open spec fn entry_text(entry: Entry, max: nat, tick: nat) -> Seq<char> {
    let suffix = if entry.is_dir { "/"@ } else { text::nil() };
    match entry.bytes {
        Some(b) => " "@ + list::bar_text(
            double::columns(b as nat, max, BAR_WIDTH as nat),
            BAR_WIDTH as nat,
        ) + "  "@ + text::right_aligned(report::human_text(b as nat), 10) + "  "@ + entry.name@ + suffix,
        None => " "@ + text::left_aligned(frame_of(tick) + " sizing"@, BAR_WIDTH as nat) + "  "@
            + text::right_aligned("—"@, 10) + "  "@ + entry.name@ + suffix,
    }
}

/// An entry as it is drawn, where `max` is what a full bar stands for.
pub fn entry_line(entry: &Entry, max: u64, tick: usize) -> (r: String)
    requires
        0 < max,
        entry.bytes matches Some(b) ==> b <= max,
    ensures
        r@ == entry_text(*entry, max as nat, tick as nat),
{
    let mut r = " ".to_owned();
    match entry.bytes {
        Some(b) => {
            let filled = full_columns(b, max, BAR_WIDTH);
            r.append(bar(filled, BAR_WIDTH).as_str());
            r.append("  ");
            r.append(align_right(human(b).as_str(), 10).as_str());
        },
        None => {
            let mut s = spinner_frame(tick).to_owned();
            s.append(" sizing");
            r.append(align_left(s.as_str(), BAR_WIDTH).as_str());
            r.append("  ");
            r.append(align_right("—", 10).as_str());
        },
    }
    r.append("  ");
    r.append(entry.name.as_str());
    if entry.is_dir {
        r.append("/");
    } else {
        assert(r@ + text::nil() =~= r@);
    }
    r
}

/// The largest known size of a level, at least 1: what a full bar stands for.
pub open spec fn scale_of(items: Seq<Entry>) -> nat
    decreases items.len(),
{
    if items.len() == 0 {
        1
    } else {
        let rest = scale_of(items.drop_last());
        if size_of(items.last()) > rest { size_of(items.last()) as nat } else { rest }
    }
}

/// What a full bar stands for: the largest known size, at least 1.
pub fn bar_scale(items: &Vec<Entry>) -> (r: u64)
    ensures
        r == scale_of(items@),
        r >= 1,
{
    let mut max: u64 = 1;
    let mut i: usize = 0;
    assert(items@.take(0) =~= Seq::<Entry>::empty());
    while i < items.len()
        invariant
            i <= items@.len(),
            max >= 1,
            max == scale_of(items@.take(i as int)),
        decreases items@.len() - i,
    {
        proof {
            assert(items@.take(i + 1).drop_last() =~= items@.take(i as int));
            assert(items@.take(i + 1).last() == items@[i as int]);
        }
        if entry_size(&items[i]) > max {
            max = entry_size(&items[i]);
        }
        i += 1;
    }
    assert(items@.take(items@.len() as int) =~= items@);
    max
}

proof fn lemma_scale_bound(items: Seq<Entry>, i: int)
    requires
        0 <= i < items.len(),
    ensures
        items[i].bytes matches Some(b) ==> b <= scale_of(items),
    decreases items.len(),
{
    if i < items.len() - 1 {
        lemma_scale_bound(items.drop_last(), i);
    }
}

/// The entries as they are drawn; the largest size sets the scale of the bars.
pub open spec fn entry_texts(items: Seq<Entry>, tick: nat) -> Seq<Seq<char>> {
    Seq::new(items.len(), |i: int| entry_text(items[i], scale_of(items), tick))
}

/// The explorer as it is drawn.
pub fn draw(explorer: &Explorer, tick: usize) -> (r: Screen)
    requires
        explorer.stack@.len() > 0,
        order::sum(explorer.stack@.last().items@, known_bytes()) <= u64::MAX,
    ensures
        ({
            let level = explorer.stack@.last();
            &&& r.top@ == Seq::empty().push(level_header(level)).push(volume_line(*explorer))
            &&& r.lines@ == entry_texts(level.items@, tick as nat)
            &&& r.selected == (if level.items@.len() > 0 { Some(level.selected) } else { None })
            &&& r.footer@ == " ↑↓ move   → enter   ← back   q quit   (explore / for whole disk)"@
            &&& r.question is None
        }),
{
    let level = explorer.current();
    let items = &level.items;
    let max = bar_scale(items);
    let mut top = Page::new();
    top.push(header_line(level));
    top.push(reconciliation(explorer));
    let ghost all = entry_texts(items@, tick as nat);
    let mut lines = Page::new();
    let mut i: usize = 0;
    assert(lines@ =~= all.take(0));
    while i < items.len()
        invariant
            i <= items@.len(),
            max == scale_of(items@),
            0 < max,
            all == entry_texts(items@, tick as nat),
            lines@ == all.take(i as int),
        decreases items@.len() - i,
    {
        proof {
            lemma_scale_bound(items@, i as int);
        }
        let line = entry_line(&items[i], max, tick);
        assert(all.take(i as int).push(line@) =~= all.take(i + 1));
        lines.push(line);
        i += 1;
    }
    assert(all.take(all.len() as int) =~= all);
    let selected = if items.len() > 0 {
        Some(level.selected)
    } else {
        None
    };
    Screen {
        top,
        lines,
        selected,
        footer: " ↑↓ move   → enter   ← back   q quit   (explore / for whole disk)",
        question: None,
    }
}

/// A level that was finished and cached is shown again as it was.
pub proof fn revisits_show_the_cached_level(
    before: Seq<Cached>,
    entry: Cached,
    level: Level,
    at: String,
    listing: Seq<Listed>,
)
    requires
        path::same_path(entry.path@, at@),
        is_built(level, at, before.push(entry), listing),
    ensures
        level.items@ == entry.items@,
        !level.sizing,
{
}

} // verus!
