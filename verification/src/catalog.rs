//! The broad coverage layer: known reclaimable locations present on most Macs, always
//! reported with a size, no anomaly logic.

use vstd::prelude::*;

use crate::expand;
use crate::expand::expand_tilde;
use crate::order;
use crate::order::sort_by_view;
use crate::report::Bucket;
use crate::text;

verus! {

/// A known reclaimable location. `~` is expanded at evaluation time.
#[derive(Debug, Clone, Copy)]
pub struct CatalogEntry {
    pub name: &'static str,
    pub category: &'static str,
    pub path: &'static str,
    pub note: &'static str,
    /// Regenerable, so it may be cleared without review.
    pub safe_auto: bool,
}

/// What a catalog entry says.
pub struct EntryView {
    pub name: Seq<char>,
    pub category: Seq<char>,
    pub path: Seq<char>,
    pub note: Seq<char>,
    pub safe_auto: bool,
}

impl View for CatalogEntry {
    type V = EntryView;

    open spec fn view(&self) -> EntryView {
        entry_view(self.name, self.category, self.path, self.note, self.safe_auto)
    }
}

/// An entry with these texts.
pub open spec fn entry_view(
    name: &str,
    category: &str,
    path: &str,
    note: &str,
    safe_auto: bool,
) -> EntryView {
    EntryView { name: name@, category: category@, path: path@, note: note@, safe_auto }
}

/// What a bucket says.
pub struct BucketView {
    pub name: Seq<char>,
    pub category: Seq<char>,
    pub path: Seq<char>,
    pub bytes: nat,
    pub note: Seq<char>,
    pub safe_auto: bool,
}

impl View for Bucket {
    type V = BucketView;

    open spec fn view(&self) -> BucketView {
        BucketView {
            name: self.name@,
            category: self.category@,
            path: self.path@,
            bytes: self.bytes as nat,
            note: self.note@,
            safe_auto: self.safe_auto,
        }
    }
}

/// The reclaimable catalog. User files, app state that does not come back, and stores shared
/// between projects are never safe to clear without review.
pub open spec fn catalog() -> Seq<EntryView> {
    seq![
        entry_view("Xcode DerivedData", "dev", "~/Library/Developer/Xcode/DerivedData", "build artifacts; rebuilds", true),
        entry_view("Xcode Archives", "dev", "~/Library/Developer/Xcode/Archives", "keep releases you shipped", false),
        entry_view("iOS DeviceSupport", "dev", "~/Library/Developer/Xcode/iOS DeviceSupport", "regenerates on device connect", true),
        entry_view("Simulator devices", "dev", "~/Library/Developer/CoreSimulator/Devices", "erase unused: simctl delete unavailable", false),
        entry_view("Simulator caches", "dev", "~/Library/Developer/CoreSimulator/Caches", "regenerates", true),
        entry_view("User caches", "cache", "~/Library/Caches", "apps rebuild on launch", true),
        entry_view("npm cache", "cache", "~/.npm", "re-downloads on install", true),
        entry_view("Yarn Berry cache", "cache", "~/.yarn/berry/cache", "re-downloads on install", true),
        entry_view("pnpm store", "cache", "~/Library/pnpm", "prune: pnpm store prune", false),
        entry_view("CocoaPods", "cache", "~/.cocoapods", "re-fetched on pod install", true),
        entry_view("Cargo registry", "cache", "~/.cargo/registry", "re-downloads crates", true),
        entry_view("Go modules", "cache", "~/go/pkg/mod", "re-downloads modules", true),
        entry_view("Gradle caches", "cache", "~/.gradle", "re-downloads", true),
        entry_view("Trash", "system", "~/.Trash", "empty when ready", false),
        entry_view("Downloads", "user", "~/Downloads", "your files — review first", false),
    ]
}

/// The default reclaimable catalog. `~` is expanded at evaluation time.
pub fn default_catalog() -> (r: Vec<CatalogEntry>)
    ensures
        order::views(r@) == catalog(),
{
    let r = vec![
        CatalogEntry {
            name: "Xcode DerivedData",
            category: "dev",
            path: "~/Library/Developer/Xcode/DerivedData",
            note: "build artifacts; rebuilds",
            safe_auto: true,
        },
        CatalogEntry {
            name: "Xcode Archives",
            category: "dev",
            path: "~/Library/Developer/Xcode/Archives",
            note: "keep releases you shipped",
            safe_auto: false,
        },
        CatalogEntry {
            name: "iOS DeviceSupport",
            category: "dev",
            path: "~/Library/Developer/Xcode/iOS DeviceSupport",
            note: "regenerates on device connect",
            safe_auto: true,
        },
        CatalogEntry {
            name: "Simulator devices",
            category: "dev",
            path: "~/Library/Developer/CoreSimulator/Devices",
            note: "erase unused: simctl delete unavailable",
            safe_auto: false,
        },
        CatalogEntry {
            name: "Simulator caches",
            category: "dev",
            path: "~/Library/Developer/CoreSimulator/Caches",
            note: "regenerates",
            safe_auto: true,
        },
        CatalogEntry {
            name: "User caches",
            category: "cache",
            path: "~/Library/Caches",
            note: "apps rebuild on launch",
            safe_auto: true,
        },
        CatalogEntry {
            name: "npm cache",
            category: "cache",
            path: "~/.npm",
            note: "re-downloads on install",
            safe_auto: true,
        },
        CatalogEntry {
            name: "Yarn Berry cache",
            category: "cache",
            path: "~/.yarn/berry/cache",
            note: "re-downloads on install",
            safe_auto: true,
        },
        CatalogEntry {
            name: "pnpm store",
            category: "cache",
            path: "~/Library/pnpm",
            note: "prune: pnpm store prune",
            safe_auto: false,
        },
        CatalogEntry {
            name: "CocoaPods",
            category: "cache",
            path: "~/.cocoapods",
            note: "re-fetched on pod install",
            safe_auto: true,
        },
        CatalogEntry {
            name: "Cargo registry",
            category: "cache",
            path: "~/.cargo/registry",
            note: "re-downloads crates",
            safe_auto: true,
        },
        CatalogEntry {
            name: "Go modules",
            category: "cache",
            path: "~/go/pkg/mod",
            note: "re-downloads modules",
            safe_auto: true,
        },
        CatalogEntry {
            name: "Gradle caches",
            category: "cache",
            path: "~/.gradle",
            note: "re-downloads",
            safe_auto: true,
        },
        CatalogEntry {
            name: "Trash",
            category: "system",
            path: "~/.Trash",
            note: "empty when ready",
            safe_auto: false,
        },
        CatalogEntry {
            name: "Downloads",
            category: "user",
            path: "~/Downloads",
            note: "your files — review first",
            safe_auto: false,
        },
    ];
    assert(order::views(r@) =~= catalog());
    r
}

/// The location of an entry under a home directory.
pub open spec fn location(entry: EntryView, home: Option<Seq<char>>) -> Seq<char> {
    expand::tilde_expanded(entry.path, home)
}

/// The locations of `entries`, in their order.
pub fn catalog_paths(entries: &Vec<CatalogEntry>, home: &Option<String>) -> (r: Vec<String>)
    ensures
        r@.len() == entries@.len(),
        forall|i: int| 0 <= i < r@.len() ==> (#[trigger] r@[i])@ == location(
            entries@[i]@,
            text::opt_text(*home),
        ),
{
    let mut r: Vec<String> = Vec::new();
    let mut i: usize = 0;
    while i < entries.len()
        invariant
            i <= entries@.len(),
            r@.len() == i,
            forall|j: int| 0 <= j < i ==> (#[trigger] r@[j])@ == location(
                entries@[j]@,
                text::opt_text(*home),
            ),
        decreases entries@.len() - i,
    {
        r.push(expand_tilde(entries[i].path, home));
        i += 1;
    }
    r
}

/// An entry that was found to hold `bytes`.
pub open spec fn bucket_of(entry: EntryView, home: Option<Seq<char>>, bytes: nat) -> BucketView {
    BucketView {
        name: entry.name,
        category: entry.category,
        path: location(entry, home),
        bytes,
        note: entry.note,
        safe_auto: entry.safe_auto,
    }
}

/// The entries that hold anything.
pub open spec fn buckets_of(
    entries: Seq<EntryView>,
    home: Option<Seq<char>>,
    sizes: Seq<u64>,
) -> Seq<BucketView>
    decreases entries.len(),
{
    if entries.len() == 0 {
        Seq::empty()
    } else {
        let rest = buckets_of(entries.drop_last(), home, sizes);
        let bytes = sizes[entries.len() - 1] as nat;
        if bytes == 0 { rest } else { rest.push(bucket_of(entries.last(), home, bytes)) }
    }
}

/// Largest first.
pub open spec fn larger_bucket() -> spec_fn(BucketView, BucketView) -> bool {
    |a: BucketView, b: BucketView| a.bytes > b.bytes
}

/// The catalog with sizes: entries that hold nothing left out, largest first.
pub open spec fn evaluated(
    entries: Seq<EntryView>,
    home: Option<Seq<char>>,
    sizes: Seq<u64>,
) -> Seq<BucketView> {
    order::ordered(buckets_of(entries, home, sizes), larger_bucket())
}

/// Gives each catalog entry its size; those that hold nothing are left out, the largest come
/// first. `sizes` holds what was measured at each of `catalog_paths`.
pub fn evaluate_catalog(
    entries: &Vec<CatalogEntry>,
    home: &Option<String>,
    sizes: &Vec<u64>,
) -> (r: Vec<Bucket>)
    requires
        sizes@.len() == entries@.len(),
    ensures
        order::views(r@) == evaluated(order::views(entries@), text::opt_text(*home), sizes@),
{
    let ghost h = text::opt_text(*home);
    let ghost all = order::views(entries@);
    let mut found: Vec<Bucket> = Vec::new();
    let mut i: usize = 0;
    assert(all.take(0) =~= Seq::<EntryView>::empty());
    assert(order::views(found@) =~= Seq::<BucketView>::empty());
    while i < entries.len()
        invariant
            i <= entries@.len(),
            sizes@.len() == entries@.len(),
            all == order::views(entries@),
            h == text::opt_text(*home),
            order::views(found@) == buckets_of(all.take(i as int), h, sizes@),
        decreases entries@.len() - i,
    {
        let bytes = sizes[i];
        proof {
            assert(all.take(i + 1).drop_last() =~= all.take(i as int));
            assert(all.take(i + 1).last() == entries@[i as int]@);
        }
        if bytes != 0 {
            let e = entries[i];
            let bucket = Bucket {
                name: e.name.to_owned(),
                category: e.category.to_owned(),
                path: expand_tilde(e.path, home),
                bytes,
                note: e.note.to_owned(),
                safe_auto: e.safe_auto,
            };
            proof {
                order::lemma_views_push(found@, bucket);
            }
            found.push(bucket);
        }
        i += 1;
    }
    assert(all.take(all.len() as int) =~= all);
    sort_by_view(
        found,
        bucket_is_larger,
        Ghost(larger_bucket()),
    )
}

fn bucket_is_larger(a: &Bucket, b: &Bucket) -> (r: bool)
    ensures
        r == (a.bytes > b.bytes),
{
    a.bytes > b.bytes
}

/// Buckets come largest first, none is lost, and ties keep their order.
pub proof fn buckets_come_largest_first(s: Seq<BucketView>, x: BucketView)
    ensures
        order::in_order(order::ordered(s, larger_bucket()), larger_bucket()),
        order::ordered(s, larger_bucket()).to_multiset() == s.to_multiset(),
        order::tied_with(order::ordered(s, larger_bucket()), x, larger_bucket()) == order::tied_with(
            s,
            x,
            larger_bucket(),
        ),
{
    order::ordering_puts_in_order(s, larger_bucket());
    order::ordering_keeps_items(s, larger_bucket());
    order::ordering_is_stable(s, x, larger_bucket());
}

/// Every location of the catalog lies below the home directory.
pub proof fn catalog_lies_below_home(home: Seq<char>, i: int)
    requires
        0 <= i < catalog().len(),
    ensures
        location(catalog()[i], Some(home)).len() > home.len() + 1,
        location(catalog()[i], Some(home)).take(home.len() as int) == home,
        location(catalog()[i], Some(home))[home.len() as int] == '/',
{
    let at = catalog()[i].path;
    assert(at.len() > 2 && at[0] == '~' && at[1] == '/') by {
        reveal_strlit("~/Library/Developer/Xcode/DerivedData");
        reveal_strlit("~/Library/Developer/Xcode/Archives");
        reveal_strlit("~/Library/Developer/Xcode/iOS DeviceSupport");
        reveal_strlit("~/Library/Developer/CoreSimulator/Devices");
        reveal_strlit("~/Library/Developer/CoreSimulator/Caches");
        reveal_strlit("~/Library/Caches");
        reveal_strlit("~/.npm");
        reveal_strlit("~/.yarn/berry/cache");
        reveal_strlit("~/Library/pnpm");
        reveal_strlit("~/.cocoapods");
        reveal_strlit("~/.cargo/registry");
        reveal_strlit("~/go/pkg/mod");
        reveal_strlit("~/.gradle");
        reveal_strlit("~/.Trash");
        reveal_strlit("~/Downloads");
    }
    assert((home + at.skip(1)).take(home.len() as int) =~= home);
}

/// Every bucket is an entry of the catalog that it was made from.
pub(crate) proof fn lemma_bucket_has_entry(
    entries: Seq<EntryView>,
    home: Option<Seq<char>>,
    sizes: Seq<u64>,
    b: BucketView,
) -> (k: int)
    requires
        buckets_of(entries, home, sizes).contains(b),
    ensures
        0 <= k < entries.len(),
        b == bucket_of(entries[k], home, b.bytes),
    decreases entries.len(),
{
    let rest = buckets_of(entries.drop_last(), home, sizes);
    if rest.contains(b) {
        lemma_bucket_has_entry(entries.drop_last(), home, sizes, b)
    } else {
        let all = buckets_of(entries, home, sizes);
        let i = choose|i: int| 0 <= i < all.len() && all[i] == b;
        if i < rest.len() {
            assert(rest[i] == b);
        }
        entries.len() - 1
    }
}

} // verus!
