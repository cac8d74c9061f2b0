//! What may be deleted, and what the catalog offers.

use vstd::prelude::*;

use crate::catalog;
use crate::catalog::{BucketView, EntryView};
use crate::engine;
use crate::engine::TargetView;
use crate::expand;
use crate::laws::paths;
use crate::path;
use crate::scan;
use crate::uninstall;

verus! {

/// A path passes the guards exactly where it starts at the root, has no `..`, is not the home
/// directory, and names something deep enough: three names below the root to be deleted, two
/// to go to the Trash.
pub proof fn guards_go_by_components(at: Seq<char>, home: Option<Seq<char>>)
    ensures
        engine::safe_to_delete(at, home) <==> {
            &&& at.len() > 0 && at[0] == '/'
            &&& !path::components(at).contains(".."@)
            &&& path::components(at).len() >= 4
            &&& home is None || path::components(at) != path::components(home.unwrap())
        },
        engine::safe_to_trash(at, home) <==> {
            &&& at.len() > 0 && at[0] == '/'
            &&& !path::components(at).contains(".."@)
            &&& path::components(at).len() >= 3
            &&& home is None || path::components(at) != path::components(home.unwrap())
        },
{
}

/// Names below the root: one alone is refused by both guards, two pass to the Trash only, and
/// three pass both, unless the path is the home directory.
pub proof fn the_guards_count_names(
    a: Seq<char>,
    b: Seq<char>,
    c: Seq<char>,
    home: Option<Seq<char>>,
)
    requires
        paths::plain_name(a) && a != ".."@,
        paths::plain_name(b) && b != ".."@,
        paths::plain_name(c) && c != ".."@,
    ensures
        ({
            let one = "/"@ + a;
            let two = one + "/"@ + b;
            let three = two + "/"@ + c;
            &&& !engine::safe_to_trash("/"@, home)
            &&& !engine::safe_to_trash(one, home)
            &&& !engine::safe_to_delete(two, home)
            &&& engine::safe_to_trash(two, home) <==> home is None || !path::same_path(
                two,
                home.unwrap(),
            )
            &&& engine::safe_to_delete(three, home) <==> home is None || !path::same_path(
                three,
                home.unwrap(),
            )
            &&& engine::safe_to_delete(three, Some(two))
            &&& !engine::safe_to_delete(three, Some(three))
            &&& !engine::safe_to_trash(two, Some(two))
            &&& !engine::safe_to_delete(three + "/.."@, home)
            &&& !engine::safe_to_trash(three + "/.."@, home)
        }),
{
    reveal_strlit("/");
    reveal_strlit("..");
    reveal_strlit("/..");
    reveal_strlit(".");
    let one = "/"@ + a;
    let two = one + "/"@ + b;
    let three = two + "/"@ + c;
    paths::names_are_components(one, a);
    paths::names_are_components(one, b);
    paths::names_are_components(two, c);
    assert(path::components(two) =~= seq!["/"@, a, b]);
    assert(path::components(three) =~= seq!["/"@, a, b, c]);
    assert("/"@ != ".."@) by {
        assert("/"@.len() != ".."@.len());
    }
    assert(three + "/.."@ =~= three + "/"@ + ".."@);
    assert(!".."@.contains('/'));
    assert(".."@ != "."@) by {
        assert("."@.len() != ".."@.len());
    }
    paths::names_are_components(three, ".."@);
    let up = path::components(three).push(".."@);
    assert(path::components(three + "/.."@) == up);
    assert(up[up.len() - 1] == ".."@);
}

/// The targets of a plan are one for each bucket: automatic exactly where the bucket is
/// regenerable and its path passes the guard, and with the bucket's name, path, bytes and note.
pub proof fn buckets_become_targets(bs: Seq<BucketView>, b: BucketView, home: Option<Seq<char>>)
    ensures
        forall|auto: bool| #[trigger] engine::targets_of(Seq::empty(), home, auto).len() == 0,
        ({
            let auto = b.safe_auto && engine::safe_to_delete(b.path, home);
            let before = engine::targets_of(bs, home, auto);
            let now = engine::targets_of(bs.push(b), home, auto);
            let t = now.last();
            &&& now.len() == before.len() + 1
            &&& now.drop_last() == before
            &&& t.name == b.name
            &&& t.path == b.path
            &&& t.bytes == b.bytes
            &&& t.note == b.note
            &&& t.auto <==> auto
            &&& engine::targets_of(bs.push(b), home, !auto) == engine::targets_of(bs, home, !auto)
        }),
{
    let auto = b.safe_auto && engine::safe_to_delete(b.path, home);
    assert(bs.push(b).drop_last() =~= bs);
    let before = engine::targets_of(bs, home, auto);
    let now = engine::targets_of(bs.push(b), home, auto);
    assert(now.drop_last() =~= before);
}

/// The buckets are the entries that hold anything, in order, each with its measured bytes, its
/// location, and what the entry says.
pub proof fn entries_become_buckets(
    entries: Seq<EntryView>,
    e: EntryView,
    home: Option<Seq<char>>,
    sizes: Seq<u64>,
)
    ensures
        catalog::buckets_of(Seq::empty(), home, sizes).len() == 0,
        ({
            let before = catalog::buckets_of(entries, home, sizes);
            let now = catalog::buckets_of(entries.push(e), home, sizes);
            let bytes = sizes[entries.len() as int];
            if bytes > 0 {
                let b = now.last();
                &&& now.len() == before.len() + 1
                &&& now.drop_last() == before
                &&& b.name == e.name
                &&& b.category == e.category
                &&& b.path == expand::tilde_expanded(e.path, home)
                &&& b.bytes == bytes
                &&& b.note == e.note
                &&& b.safe_auto == e.safe_auto
            } else {
                now == before
            }
        }),
{
    assert(entries.push(e).drop_last() =~= entries);
    let before = catalog::buckets_of(entries, home, sizes);
    let now = catalog::buckets_of(entries.push(e), home, sizes);
    if sizes[entries.len() as int] > 0 {
        assert(now.drop_last() =~= before);
    }
}

/// A tilde that stands alone or before a slash is the home directory; where that is not known,
/// and in any other place, a path stays as it is.
pub proof fn a_tilde_is_the_home(rest: Seq<char>, p: Seq<char>, home: Seq<char>)
    ensures
        expand::tilde_expanded("~"@, Some(home)) == home,
        expand::tilde_expanded("~/"@ + rest, Some(home)) == home + "/"@ + rest,
        expand::tilde_expanded(p, None) == p,
        p.len() > 0 && p[0] != '~' ==> expand::tilde_expanded(p, Some(home)) == p,
        p.len() > 1 && p[1] != '/' ==> expand::tilde_expanded(p, Some(home)) == p,
        p.len() == 0 ==> expand::tilde_expanded(p, Some(home)) == p,
{
    reveal_strlit("~");
    reveal_strlit("~/");
    reveal_strlit("/");
    assert(home + "~"@.skip(1) =~= home);
    assert(home + ("~/"@ + rest).skip(1) =~= home + "/"@ + rest);
}

/// The first variable of a name gives its value, and the others do not matter.
pub proof fn the_first_variable_counts(
    vars: Seq<(Seq<char>, Seq<char>)>,
    name: Seq<char>,
    other: Seq<char>,
    value: Seq<char>,
)
    ensures
        expand::value_of(Seq::empty(), name) is None,
        expand::value_of(seq![(name, value)] + vars, name) == Some(value),
        other != name ==> expand::value_of(seq![(other, value)] + vars, name) == expand::value_of(
            vars,
            name,
        ),
{
    assert((seq![(other, value)] + vars).skip(1) =~= vars);
    assert((seq![(other, value)] + vars)[0] == (other, value));
    assert((seq![(name, value)] + vars)[0] == (name, value));
}

/// A pattern that cannot be expanded stays as it is.
pub proof fn patterns_stay_where_they_cannot_be_expanded(p: Seq<char>, s: Seq<char>)
    ensures
        expand::expanded_or(p, None) == p,
        expand::expanded_or(p, Some(s)) == s,
{
}

/// The children that are shown are the first `top` that hold anything, in order.
pub proof fn the_first_children_are_shown(
    children: Seq<scan::ChildView>,
    c: scan::ChildView,
    top: nat,
)
    ensures
        engine::shown_children(Seq::empty(), top).len() == 0,
        engine::shown_children(children, top).len() <= top,
        c.bytes == 0 ==> engine::shown_children(children.push(c), top) == engine::shown_children(
            children,
            top,
        ),
        engine::shown_children(children, top).len() == top ==> engine::shown_children(
            children.push(c),
            top,
        ) == engine::shown_children(children, top),
        c.bytes > 0 && engine::shown_children(children, top).len() < top ==> engine::shown_children(
            children.push(c),
            top,
        ) == engine::shown_children(children, top).push(c),
{
    reveal(Seq::filter);
    let holds = |x: scan::ChildView| x.bytes > 0;
    let all = children.push(c);
    assert(all.drop_last() =~= children);
    let kept = children.filter(holds);
    let more = all.filter(holds);
    assert(Seq::<scan::ChildView>::empty().filter(holds).len() == 0);
    if c.bytes > 0 {
        assert(more == kept.push(c));
        if kept.len() >= top {
            assert(more.take(top as int) =~= kept.take(top as int));
            assert(kept.take(kept.len() as int) =~= kept);
        }
    }
}

/// User files and what the system keeps are never cleared without review, and every entry of
/// the catalog lies in the home directory.
pub proof fn user_files_are_reviewed(i: int)
    requires
        0 <= i < catalog::catalog().len(),
    ensures
        ({
            let e = catalog::catalog()[i];
            &&& e.category == "dev"@ || e.category == "cache"@ || e.category == "system"@
                || e.category == "user"@
            &&& e.safe_auto ==> e.category == "dev"@ || e.category == "cache"@
            &&& e.path.len() > 2 && e.path[0] == '~' && e.path[1] == '/'
            &&& e.safe_auto ==> e.name != "Trash"@ && e.name != "Downloads"@ && e.name
                != "Xcode Archives"@ && e.name != "Simulator devices"@ && e.name != "pnpm store"@
            &&& !e.safe_auto ==> e.name == "Trash"@ || e.name == "Downloads"@ || e.name
                == "Xcode Archives"@ || e.name == "Simulator devices"@ || e.name == "pnpm store"@
        }),
{
    reveal_strlit("dev");
    reveal_strlit("cache");
    reveal_strlit("Xcode DerivedData");
    reveal_strlit("Xcode Archives");
    reveal_strlit("iOS DeviceSupport");
    reveal_strlit("Simulator devices");
    reveal_strlit("Simulator caches");
    reveal_strlit("User caches");
    reveal_strlit("npm cache");
    reveal_strlit("Yarn Berry cache");
    reveal_strlit("pnpm store");
    reveal_strlit("CocoaPods");
    reveal_strlit("Cargo registry");
    reveal_strlit("Go modules");
    reveal_strlit("Gradle caches");
    reveal_strlit("Trash");
    reveal_strlit("Downloads");
    reveal_strlit("~/Library/Developer/Xcode/DerivedData");
    reveal_strlit("~/Library/Developer/Xcode/Archives");
    reveal_strlit("~/Library/Developer/Xcode/iOS DeviceSupport");
    reveal_strlit("~/Library/Developer/CoreSimulator/Devices");
    reveal_strlit("~/Library/Developer/CoreSimulator/Caches");
    reveal_strlit("~/Library/Caches");
    reveal_strlit("~/.npm");
    reveal_strlit("~/.yarn/berry/cache");
    reveal_strlit("~/Library/pnpm");
    reveal_strlit("~/.cocoapods");
    reveal_strlit("~/.cargo/registry");
    reveal_strlit("~/go/pkg/mod");
    reveal_strlit("~/.gradle");
    reveal_strlit("~/.Trash");
    reveal_strlit("~/Downloads");
    let e = catalog::catalog()[i];
    assert(e.name.len() > 0);
    assert(e.safe_auto ==> e.name[0] != 'T');
    assert("Trash"@[0] == 'T');
    assert(e.safe_auto ==> e.name[0] != 'D');
    assert("Downloads"@[0] == 'D');
    assert("Xcode Archives"@.len() == 14);
    assert(e.safe_auto && e.name.len() == 14 ==> e.name[0] == 'C');
    assert("Xcode Archives"@[0] == 'X');
    assert("Simulator devices"@.len() == 17);
    assert(e.safe_auto && e.name.len() == 17 ==> e.name[0] == 'X' || e.name[0] == 'i');
    assert("Simulator devices"@[0] == 'S');
    assert("pnpm store"@.len() == 10);
    assert(e.safe_auto && e.name.len() == 10 ==> e.name[0] == 'G');
    assert("pnpm store"@[0] == 'p');
}

/// Each location of the Library is named by its path below it.
pub proof fn locations_are_named_by_their_paths(i: int)
    requires
        0 <= i < uninstall::libraries().len(),
    ensures
        uninstall::libraries()[i].0 == "~/Library/"@ + uninstall::libraries()[i].1,
{
    reveal_strlit("~/Library/");
    reveal_strlit("~/Library/Application Support");
    reveal_strlit("Application Support");
    reveal_strlit("~/Library/Caches");
    reveal_strlit("Caches");
    reveal_strlit("~/Library/Preferences");
    reveal_strlit("Preferences");
    reveal_strlit("~/Library/Containers");
    reveal_strlit("Containers");
    reveal_strlit("~/Library/Group Containers");
    reveal_strlit("Group Containers");
    reveal_strlit("~/Library/Logs");
    reveal_strlit("Logs");
    reveal_strlit("~/Library/Saved Application State");
    reveal_strlit("Saved Application State");
    reveal_strlit("~/Library/WebKit");
    reveal_strlit("WebKit");
    reveal_strlit("~/Library/HTTPStorages");
    reveal_strlit("HTTPStorages");
    reveal_strlit("~/Library/Cookies");
    reveal_strlit("Cookies");
    reveal_strlit("~/Library/LaunchAgents");
    reveal_strlit("LaunchAgents");
    let l = uninstall::libraries()[i];
    assert(l.0 =~= "~/Library/"@ + l.1);
}

} // verus!
