//! Browsing folders, and the dashboard.

use vstd::prelude::*;

use crate::anomaly::{Anomaly, AnomalyKind};
use crate::order;
use crate::path;
use crate::report::{Bucket, ChildSize, DiskSpace, Finding, LargeFile, ScanReport};
use crate::text;
use crate::tui::dashboard;
use crate::tui::dashboard::SectionView;
use crate::tui::explorer;
use crate::tui::explorer::{CachedSizes, Child};
use crate::tui::keys;
use crate::tui::keys::Key;
use crate::tui::list;
use crate::tui::tree;
use crate::tui::tree::{Cached, Level, LevelNews, Listed, ListedKind, SizeNews};
use crate::tui::widget::Row;

verus! {

/// What each key means while moving about.
pub proof fn keys_have_their_meaning(key: Key)
    ensures
        keys::meaning(key) is Quit <==> key == Key::Esc || key == Key::Char('q'),
        keys::meaning(key) is Up <==> key == Key::Up || key == Key::Char('k'),
        keys::meaning(key) is Down <==> key == Key::Down || key == Key::Char('j'),
        keys::meaning(key) is Back <==> key == Key::Left || key == Key::Char('h'),
        keys::meaning(key) is In <==> key == Key::Right || key == Key::Enter || key == Key::Char(
            'l',
        ),
{
}

/// Of the sizes cached for a path the last count, and those of other paths do not.
pub proof fn the_last_cached_sizes_count(cache: Seq<CachedSizes>, c: CachedSizes, at: Seq<char>)
    ensures
        explorer::cached_sizes(Seq::empty(), at) is None,
        path::same_path(c.path@, at) ==> explorer::cached_sizes(cache.push(c), at) == Some(
            c.sized@,
        ),
        !path::same_path(c.path@, at) ==> explorer::cached_sizes(cache.push(c), at)
            == explorer::cached_sizes(cache, at),
{
    assert(cache.push(c).drop_last() =~= cache);
}

/// Of the levels cached for a path the last counts, and those of other paths do not.
pub proof fn the_last_cached_level_counts(cache: Seq<Cached>, c: Cached, at: Seq<char>)
    ensures
        tree::cached_items(Seq::empty(), at) is None,
        path::same_path(c.path@, at) ==> tree::cached_items(cache.push(c), at) == Some(c.items@),
        !path::same_path(c.path@, at) ==> tree::cached_items(cache.push(c), at)
            == tree::cached_items(cache, at),
{
    assert(cache.push(c).drop_last() =~= cache);
}

/// A level is found by its path, the first of it, and only where there is one.
pub proof fn levels_are_found_by_path(stack: Seq<explorer::Level>, at: Seq<char>, i: int)
    requires
        0 <= i <= stack.len(),
    ensures
        ({
            let k = explorer::level_from(stack, at, i);
            &&& i <= k <= stack.len()
            &&& k < stack.len() ==> path::same_path(stack[k].path@, at)
            &&& forall|j: int| i <= j < k ==> !path::same_path((#[trigger] stack[j]).path@, at)
        }),
    decreases stack.len() - i,
{
    if i < stack.len() && !path::same_path(stack[i].path@, at) {
        levels_are_found_by_path(stack, at, i + 1);
    }
}

/// An item is found by its path, the first of it, and only where there is one.
pub proof fn items_are_found_by_path(items: Seq<explorer::Entry>, at: Seq<char>, i: int)
    requires
        0 <= i <= items.len(),
    ensures
        ({
            let k = explorer::item_from(items, at, i);
            &&& i <= k <= items.len()
            &&& k < items.len() ==> path::same_path(items[k].path@, at)
            &&& forall|j: int| i <= j < k ==> !path::same_path((#[trigger] items[j]).path@, at)
        }),
    decreases items.len() - i,
{
    if i < items.len() && !path::same_path(items[i].path@, at) {
        items_are_found_by_path(items, at, i + 1);
    }
}

/// An entry is found by its path, the first of it, and only where there is one.
pub proof fn entries_are_found_by_path(items: Seq<tree::Entry>, at: Seq<char>, i: int)
    requires
        0 <= i <= items.len(),
    ensures
        ({
            let k = tree::index_from(items, at, i);
            &&& i <= k <= items.len()
            &&& k < items.len() ==> path::same_path(items[k].path@, at)
            &&& forall|j: int| i <= j < k ==> !path::same_path((#[trigger] items[j]).path@, at)
        }),
    decreases items.len() - i,
{
    if i < items.len() && !path::same_path(items[i].path@, at) {
        entries_are_found_by_path(items, at, i + 1);
    }
}

/// The cursor follows its item: it stands on the first with the same path where there is one.
pub proof fn the_cursor_follows_its_item(level: explorer::Level, items: Seq<explorer::Entry>, j: int)
    requires
        level.selected < level.items@.len(),
        0 <= j < items.len(),
        path::same_path(items[j].path@, level.items@[level.selected as int].path@),
    ensures
        ({
            let k = explorer::followed(level, items);
            &&& 0 <= k <= j
            &&& path::same_path(items[k].path@, level.items@[level.selected as int].path@)
        }),
{
    items_are_found_by_path(items, level.items@[level.selected as int].path@, 0);
}

/// Every child of a folder is listed, first without a size, then with it.
pub proof fn every_child_is_listed(children: Seq<Child>, sized: Seq<ChildSize>, i: int)
    ensures
        explorer::unsized_entries(children).len() == children.len(),
        0 <= i < children.len() ==> {
            let e = explorer::unsized_entries(children)[i];
            e.name == children[i].name && e.path == children[i].path && e.bytes is None
        },
        explorer::sized_entries(sized).len() == sized.len(),
        0 <= i < sized.len() ==> {
            let e = explorer::sized_entries(sized)[i];
            e.name == sized[i].name && e.path == sized[i].path && e.bytes == Some(sized[i].bytes)
        },
{
}

/// Sizes go into the level of their path, and into no other.
pub proof fn sizes_go_into_their_level(
    before: Seq<explorer::Level>,
    after: Seq<explorer::Level>,
    at: Seq<char>,
    sized: Seq<ChildSize>,
    i: int,
)
    requires
        explorer::with_sizes(before, after, at, sized),
        0 <= i < before.len(),
    ensures
        after.len() == before.len(),
        after[i].path == before[i].path,
        !path::same_path(before[i].path@, at) ==> after[i] == before[i],
        path::same_path(before[i].path@, at) && (forall|j: int|
            0 <= j < i ==> !path::same_path((#[trigger] before[j]).path@, at)) ==> {
            &&& after[i].items@ == explorer::sized_entries(sized)
            &&& !after[i].loading
        },
{
    levels_are_found_by_path(before, at, 0);
}

/// Folders and regular files are listed, and nothing else: folders to be sized, files with
/// their length.
pub proof fn folders_and_files_are_listed(listing: Seq<Listed>, l: Listed)
    ensures
        tree::entries_of(Seq::empty()).len() == 0,
        l.kind is Skipped ==> tree::entries_of(listing.push(l)) == tree::entries_of(listing),
        !(l.kind is Skipped) ==> {
            let before = tree::entries_of(listing);
            let now = tree::entries_of(listing.push(l));
            &&& now.len() == before.len() + 1
            &&& now.drop_last() == before
            &&& now.last().name == l.name
            &&& now.last().path == l.path
            &&& now.last().is_dir <==> l.kind is Dir
            &&& l.kind is Dir ==> now.last().bytes is None
            &&& l.kind matches ListedKind::File(n) ==> now.last().bytes == Some(n)
        },
{
    assert(listing.push(l).drop_last() =~= listing);
    let before = tree::entries_of(listing);
    let now = tree::entries_of(listing.push(l));
    if !(l.kind is Skipped) {
        assert(now.drop_last() =~= before);
    }
}

/// The folders of a level, and no files, are sized.
pub proof fn folders_are_sized(items: Seq<tree::Entry>, e: tree::Entry)
    ensures
        tree::folders_of(Seq::empty()).len() == 0,
        e.is_dir ==> tree::folders_of(items.push(e)) == tree::folders_of(items).push(e.path),
        !e.is_dir ==> tree::folders_of(items.push(e)) == tree::folders_of(items),
{
    assert(items.push(e).drop_last() =~= items);
}

/// The number of pending folders is the number of folders to be sized.
pub proof fn pending_counts_the_folders(items: Seq<tree::Entry>)
    ensures
        order::sum(items, tree::folder()) == tree::folders_of(items).len(),
    decreases items.len(),
{
    if items.len() > 0 {
        pending_counts_the_folders(items.drop_last());
        order::lemma_sum_push(items.drop_last(), items.last(), tree::folder());
        assert(items.drop_last().push(items.last()) =~= items);
    }
}

/// A size that came in goes to the first entry of its path, and changes nothing else.
pub proof fn a_size_goes_to_its_entry(items: Seq<tree::Entry>, news: SizeNews, i: int)
    requires
        0 <= i < items.len(),
    ensures
        ({
            let after = tree::sized_item(items, news);
            &&& after.len() == items.len()
            &&& after[i].name == items[i].name
            &&& after[i].path == items[i].path
            &&& after[i].is_dir == items[i].is_dir
            &&& !path::same_path(items[i].path@, news.path@) ==> after[i] == items[i]
            &&& path::same_path(items[i].path@, news.path@) && (forall|j: int|
                0 <= j < i ==> !path::same_path((#[trigger] items[j]).path@, news.path@))
                ==> after[i].bytes == Some(news.bytes)
        }),
{
    entries_are_found_by_path(items, news.path@, 0);
}

/// Sizes are filled in one after the other.
pub proof fn sizes_are_filled_in(items: Seq<tree::Entry>, news: Seq<SizeNews>, n: SizeNews)
    ensures
        tree::sized_items(items, Seq::empty()) == items,
        tree::sized_items(items, news.push(n)) == tree::sized_item(
            tree::sized_items(items, news),
            n,
        ),
{
    assert(news.push(n).drop_last() =~= news);
}

/// Each size that comes in leaves one folder less to be sized; at the end none is left.
pub proof fn pending_goes_down(pending: nat, sizes: nat)
    ensures
        tree::still_pending(pending, sizes, true) == 0,
        pending >= sizes ==> tree::still_pending(pending, sizes, false) + sizes == pending,
        pending < sizes ==> tree::still_pending(pending, sizes, false) == 0,
{
}

/// A level is finished exactly where it was being sized and no folder is left.
pub proof fn levels_finish_with_their_folders(stack: Seq<Level>, news: Seq<LevelNews>, i: int)
    requires
        0 <= i < stack.len(),
    ensures
        tree::finished_levels(stack, news).len() == stack.len(),
        tree::finished_levels(stack, news)[i] <==> stack[i].sizing && (news[i].closed
            || stack[i].pending <= news[i].sizes@.len()),
{
}

/// The finished levels are cached with their items, in order, behind what was cached before.
pub proof fn finished_levels_are_cached(
    before: Seq<Cached>,
    after: Seq<Cached>,
    levels: Seq<Level>,
    finished: Seq<bool>,
)
    requires
        tree::is_cached_after(before, after, levels, finished),
        finished.len() >= levels.len(),
    ensures
        before.is_prefix_of(after),
        levels.len() > 0 && finished[levels.len() - 1] ==> after.last().path == levels.last().path
            && after.last().items@ == levels.last().items@,
        (forall|i: int| 0 <= i < levels.len() ==> !#[trigger] finished[i]) ==> after == before,
    decreases levels.len(),
{
    if levels.len() > 0 {
        if finished[levels.len() - 1] {
            finished_levels_are_cached(before, after.drop_last(), levels.drop_last(), finished);
            assert(after.drop_last().is_prefix_of(after));
            assert(before =~= after.take(before.len() as int)) by {
                assert(before =~= after.drop_last().take(before.len() as int));
            }
        } else {
            finished_levels_are_cached(before, after, levels.drop_last(), finished);
        }
    }
}

/// The size of an entry is what is known of it.
pub proof fn unknown_sizes_count_as_nothing(e: tree::Entry)
    ensures
        e.bytes is None ==> tree::size_of(e) == 0,
        e.bytes matches Some(b) ==> tree::size_of(e) == b,
{
}

/// A percentage is rounded down: that many hundredths are there, and one more is not.
pub proof fn percentages_are_rounded_down(part: nat, whole: nat)
    requires
        100 * part <= u64::MAX,
        whole > 0,
    ensures
        tree::percent_of(part, whole) * whole <= 100 * part,
        100 * part < (tree::percent_of(part, whole) + 1) * whole,
        tree::percent_of(part, 0) == 0,
{
    let q = tree::percent_of(part, whole);
    vstd::arithmetic::div_mod::lemma_fundamental_div_mod((part * 100) as int, whole as int);
    vstd::arithmetic::div_mod::lemma_mod_bound((part * 100) as int, whole as int);
    assert(q * whole == whole * q) by (nonlinear_arith);
    assert((q + 1) * whole == whole * q + whole) by (nonlinear_arith);
}

/// A full bar stands for the largest size, and for one byte where there is none.
pub proof fn a_full_bar_is_the_largest(rows: Seq<Row>, items: Seq<tree::Entry>)
    ensures
        forall|i: int| 0 <= i < rows.len() ==> (#[trigger] rows[i]).bytes <= list::scale_of(rows),
        list::scale_of(rows) == 1 || exists|i: int|
            0 <= i < rows.len() && (#[trigger] rows[i]).bytes == list::scale_of(rows),
        list::scale_of(rows) >= 1,
        forall|i: int|
            0 <= i < items.len() ==> tree::size_of(#[trigger] items[i]) <= tree::scale_of(items),
        tree::scale_of(items) == 1 || exists|i: int|
            0 <= i < items.len() && tree::size_of(#[trigger] items[i]) == tree::scale_of(items),
        tree::scale_of(items) >= 1,
    decreases rows.len() + items.len(),
{
    if rows.len() > 0 {
        let rest = rows.drop_last();
        a_full_bar_is_the_largest(rest, items);
        assert forall|i: int| 0 <= i < rows.len() implies (#[trigger] rows[i]).bytes
            <= list::scale_of(rows) by {
            if i < rest.len() {
                assert(rest[i] == rows[i]);
            }
        }
        if rows.last().bytes > list::scale_of(rest) {
            assert(rows[rows.len() - 1].bytes == list::scale_of(rows));
        } else if list::scale_of(rest) != 1 {
            let i = choose|i: int|
                0 <= i < rest.len() && (#[trigger] rest[i]).bytes == list::scale_of(rest);
            assert(rows[i].bytes == list::scale_of(rows));
        }
    } else if items.len() > 0 {
        let rest = items.drop_last();
        a_full_bar_is_the_largest(rows, rest);
        assert forall|i: int| 0 <= i < items.len() implies tree::size_of(#[trigger] items[i])
            <= tree::scale_of(items) by {
            if i < rest.len() {
                assert(rest[i] == items[i]);
            }
        }
        if tree::size_of(items.last()) > tree::scale_of(rest) {
            assert(tree::size_of(items[items.len() - 1]) == tree::scale_of(items));
        } else if tree::scale_of(rest) != 1 {
            let i = choose|i: int|
                0 <= i < rest.len() && tree::size_of(#[trigger] rest[i]) == tree::scale_of(rest);
            assert(tree::size_of(items[i]) == tree::scale_of(items));
        }
    }
}

/// Each anomaly has a row among those of its kind, and none among the others: with its name,
/// path and bytes, app data with its severity, a cache as one.
pub proof fn anomalies_have_rows_by_kind(list: Seq<Anomaly>, a: Anomaly, kind: AnomalyKind)
    ensures
        dashboard::anomaly_rows(Seq::empty(), kind).len() == 0,
        a.kind != kind ==> dashboard::anomaly_rows(list.push(a), kind) == dashboard::anomaly_rows(
            list,
            kind,
        ),
        a.kind == kind ==> {
            let before = dashboard::anomaly_rows(list, kind);
            let now = dashboard::anomaly_rows(list.push(a), kind);
            let row = now.last();
            &&& now.len() == before.len() + 1
            &&& now.drop_last() == before
            &&& row.bytes == a.bytes
            &&& row.label == a.name@
            &&& row.path == a.path@
            &&& row.kind is Dir
            &&& kind is Cache ==> row.tag == Some("cache"@)
            &&& kind is AppData ==> row.tag == Some(
                if a.severity is Critical {
                    "CRIT"@
                } else if a.severity is Warn {
                    "WARN"@
                } else {
                    "info"@
                },
            )
        },
{
    assert(list.push(a).drop_last() =~= list);
    let before = dashboard::anomaly_rows(list, kind);
    let now = dashboard::anomaly_rows(list.push(a), kind);
    if a.kind == kind {
        assert(now.drop_last() =~= before);
    }
}

/// Every bucket, large file and finding has its row.
pub proof fn everything_has_its_row(
    buckets: Seq<Bucket>,
    files: Seq<LargeFile>,
    findings: Seq<Finding>,
    i: int,
)
    ensures
        dashboard::bucket_rows(buckets).len() == buckets.len(),
        0 <= i < buckets.len() ==> {
            let row = dashboard::bucket_rows(buckets)[i];
            &&& row.bytes == buckets[i].bytes
            &&& row.label == buckets[i].name@
            &&& row.path == buckets[i].path@
            &&& row.kind is Dir
            &&& row.tag == Some(
                if buckets[i].safe_auto {
                    "safe"@
                } else {
                    "review"@
                },
            )
        },
        dashboard::file_rows(files).len() == files.len(),
        0 <= i < files.len() ==> {
            let row = dashboard::file_rows(files)[i];
            &&& row.bytes == files[i].bytes
            &&& row.label == files[i].path@
            &&& row.path == files[i].path@
            &&& row.kind is File
            &&& files[i].modified_days is None ==> row.tag is None
            &&& files[i].modified_days matches Some(d) ==> row.tag == Some(
                text::decimal(d as nat) + "d"@,
            )
        },
        dashboard::finding_rows(findings).len() == findings.len(),
        0 <= i < findings.len() ==> {
            let row = dashboard::finding_rows(findings)[i];
            &&& row.bytes == findings[i].bytes
            &&& row.label == findings[i].name@
            &&& row.path == findings[i].path@
            &&& row.kind is Dir
            &&& row.tag == Some(
                if findings[i].severity is Critical {
                    "CRIT"@
                } else if findings[i].severity is Warn {
                    "WARN"@
                } else {
                    "info"@
                },
            )
        },
{
}

/// The dashboard shows everything that was found: each list that is not empty is a section.
pub proof fn every_list_is_a_section(
    scan: ScanReport,
    anomalies: Seq<Anomaly>,
    largest: Seq<LargeFile>,
)
    ensures
        ({
            let all = dashboard::sections_of(scan, anomalies, largest);
            let data = dashboard::anomaly_rows(anomalies, AnomalyKind::AppData);
            let caches = dashboard::anomaly_rows(anomalies, AnomalyKind::Cache);
            &&& scan.buckets@.len() > 0 ==> all[0].title == "Reclaimable"@ && all[0].rows
                == dashboard::bucket_rows(scan.buckets@)
            &&& data.len() > 0 ==> exists|i: int| 0 <= i < all.len() && #[trigger] all[i].rows == data
            &&& caches.len() > 0 ==> exists|i: int|
                0 <= i < all.len() && #[trigger] all[i].rows == caches
            &&& largest.len() > 0 ==> exists|i: int|
                0 <= i < all.len() && #[trigger] all[i].rows == dashboard::file_rows(largest)
            &&& scan.findings@.len() > 0 ==> all.last().rows == dashboard::finding_rows(
                scan.findings@,
            )
            &&& all.len() == (if scan.buckets@.len() > 0 {
                1int
            } else {
                0
            }) + (if data.len() > 0 {
                1int
            } else {
                0
            }) + (if caches.len() > 0 {
                1int
            } else {
                0
            }) + (if largest.len() > 0 {
                1int
            } else {
                0
            }) + (if scan.findings@.len() > 0 {
                1int
            } else {
                0
            })
        }),
{
    let all = dashboard::sections_of(scan, anomalies, largest);
    let data = dashboard::anomaly_rows(anomalies, AnomalyKind::AppData);
    let caches = dashboard::anomaly_rows(anomalies, AnomalyKind::Cache);
    let a: int = if scan.buckets@.len() > 0 { 1 } else { 0 };
    let b: int = if data.len() > 0 { a + 1 } else { a };
    let c: int = if caches.len() > 0 { b + 1 } else { b };
    if data.len() > 0 {
        assert(all[a].rows == data);
    }
    if caches.len() > 0 {
        assert(all[b].rows == caches);
    }
    if largest.len() > 0 {
        assert(all[c].rows == dashboard::file_rows(largest));
    }
}

/// Every row can be reached: the positions are those of all rows of all sections, in order.
pub proof fn every_row_can_be_reached(sections: Seq<SectionView>, s: SectionView, r: int)
    requires
        0 <= r < s.rows.len(),
    ensures
        dashboard::nav_of(Seq::empty()).len() == 0,
        ({
            let before = dashboard::nav_of(sections);
            let now = dashboard::nav_of(sections.push(s));
            &&& now.len() == before.len() + s.rows.len()
            &&& now.take(before.len() as int) == before
            &&& now[before.len() + r] == (sections.len(), r as nat)
        }),
{
    assert(sections.push(s).drop_last() =~= sections);
    let before = dashboard::nav_of(sections);
    let now = dashboard::nav_of(sections.push(s));
    assert(now.take(before.len() as int) =~= before);
}

/// A section has a header line with its title and then one line for each of its rows.
pub proof fn sections_are_drawn_in_order(sections: Seq<SectionView>, s: SectionView, r: int)
    requires
        0 <= r < s.rows.len(),
    ensures
        dashboard::section_lines(Seq::empty()).len() == 0,
        ({
            let before = dashboard::section_lines(sections);
            let now = dashboard::section_lines(sections.push(s));
            &&& now.len() == before.len() + 1 + s.rows.len()
            &&& now.take(before.len() as int) == before
            &&& now[before.len() as int] == " "@ + s.title
            &&& now[before.len() + 1 + r] == dashboard::dash_line(s.rows[r])
        }),
{
    assert(sections.push(s).drop_last() =~= sections);
    let before = dashboard::section_lines(sections);
    let now = dashboard::section_lines(sections.push(s));
    assert(now.take(before.len() as int) =~= before);
}

/// A volume is shown by its own numbers.
pub proof fn a_volume_keeps_its_numbers(d: DiskSpace)
    ensures
        dashboard::disk_view(None) is None,
        dashboard::disk_view(Some(d)) == Some((d.path@, d.total, d.used, d.free)),
{
}

} // verus!
