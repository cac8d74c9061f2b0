//! What is a cache and what is app data.

use vstd::prelude::*;

use crate::anomaly;
use crate::anomaly::AnomalyKind;
use crate::catalog;
use crate::laws::paths::{lemma_components_below, names_are_components, plain_name};
use crate::path;
use crate::report::Severity;
use crate::text;

verus! {

/// Whether the text `part` stands somewhere in `at`.
pub open spec fn stands_in(at: Seq<char>, part: Seq<char>) -> bool {
    exists|k: int|
        0 <= k && k + part.len() <= at.len() && #[trigger] at.subrange(k, k + part.len()) == part
}

/// Whether a path is at or below the place of a catalog entry that is marked as safe to clear
/// and as a cache.
pub open spec fn in_a_cache_of_the_catalog(at: Seq<char>, home: Option<Seq<char>>) -> bool {
    exists|i: int|
        0 <= i < catalog::catalog().len() && (#[trigger] catalog::catalog()[i]).safe_auto
            && catalog::catalog()[i].category == "cache"@ && path::under(
            at,
            catalog::location(catalog::catalog()[i], home),
        )
}

/// A path is a cache exactly where `Caches` is one of its components, where it passes through
/// the folders of the per-user scratch space or of the user's caches, or where the catalog has
/// a safe cache at or above it. Everything else is app data.
pub proof fn only_known_places_are_caches(at: Seq<char>, home: Option<Seq<char>>)
    ensures
        anomaly::kind_of(at, home) == AnomalyKind::Cache ==> path::components(at).contains(
            "Caches"@,
        ) || stands_in(at, "/var/folders/"@) || stands_in(at, "/Library/Caches/"@)
            || in_a_cache_of_the_catalog(at, home),
        path::components(at).contains("Caches"@) || stands_in(at, "/var/folders/"@)
            || in_a_cache_of_the_catalog(at, home) ==> anomaly::kind_of(at, home)
            == AnomalyKind::Cache,
        anomaly::kind_of(at, home) != AnomalyKind::Cache ==> anomaly::kind_of(at, home)
            == AnomalyKind::AppData,
{
    lemma_stands(at, "/var/folders/"@);
    lemma_stands(at, "/Library/Caches/"@);
    if anomaly::kind_of(at, home) == AnomalyKind::Cache && !path::components(at).contains(
        "Caches"@,
    ) && !stands_in(at, "/var/folders/"@) && !stands_in(at, "/Library/Caches/"@) {
        let i = choose|i: int|
            0 <= i < catalog::catalog().len() && anomaly::covers(
                #[trigger] catalog::catalog()[i],
                at,
                home,
            );
        assert(catalog::catalog()[i].safe_auto);
    }
    if in_a_cache_of_the_catalog(at, home) {
        let i = choose|i: int|
            0 <= i < catalog::catalog().len() && (#[trigger] catalog::catalog()[i]).safe_auto
                && catalog::catalog()[i].category == "cache"@ && path::under(
                at,
                catalog::location(catalog::catalog()[i], home),
            );
        assert(anomaly::covers(catalog::catalog()[i], at, home));
    }
}

proof fn lemma_stands(at: Seq<char>, part: Seq<char>)
    ensures
        text::occurs(at, part) == stands_in(at, part),
{
    if text::occurs(at, part) {
        let k = choose|k: int| text::occurs_at(at, part, k);
        assert(at.subrange(k, k + part.len()) == part);
    }
    if stands_in(at, part) {
        let k = choose|k: int|
            0 <= k && k + part.len() <= at.len() && #[trigger] at.subrange(k, k + part.len())
                == part;
        assert(text::occurs_at(at, part, k));
    }
}

proof fn lemma_first_below(h: Seq<char>, n: Seq<char>, tail: Seq<char>)
    requires
        h.len() > 0,
        plain_name(n),
        tail.len() == 0 || tail[0] == '/',
    ensures
        path::components(h + "/"@ + n + tail).len() > path::components(h).len(),
        path::components(h + "/"@ + n + tail)[path::components(h).len() as int] == n,
        path::components(h + "/"@ + n + tail).take(path::components(h).len() as int)
            == path::components(h),
{
    names_are_components(h, n);
    let d = h + "/"@ + n;
    let k = path::components(h).len() as int;
    if tail.len() == 0 {
        assert(d + tail =~= d);
        assert(path::components(h).push(n).take(k) =~= path::components(h));
    } else {
        reveal_strlit("/");
        let rest = tail.skip(1);
        assert(d + tail =~= d + "/"@ + rest);
        lemma_components_below(d, rest);
        assert(path::components(d + tail).take(k) =~= path::components(h));
    }
}

/// Whether the components of `at` and those of a place part ways at or above the place.
proof fn lemma_not_under(at: Seq<char>, root: Seq<char>, k: int)
    requires
        0 <= k < path::components(root).len(),
        path::components(root).len() > path::components(at).len() || path::components(at)[k]
            != path::components(root)[k],
    ensures
        !path::under(at, root),
{
    let x = path::components(at);
    let y = path::components(root);
    if path::under(at, root) {
        assert(x.take(y.len() as int)[k] == x[k]);
    }
}

/// The places of the catalog's safe caches begin, below home, with a name that is not
/// `Library`, or are the user's caches.
proof fn lemma_cache_places(h: Seq<char>, i: int)
    requires
        h.len() > 0,
        0 <= i < catalog::catalog().len(),
        catalog::catalog()[i].safe_auto,
        catalog::catalog()[i].category == "cache"@,
    ensures
        ({
            let place = path::components(catalog::location(catalog::catalog()[i], Some(h)));
            let k = path::components(h).len() as int;
            &&& place.len() > k
            &&& place[k] != "Library"@ || (place.len() > k + 1 && place[k + 1] == "Caches"@)
        }),
{
    reveal_strlit("/");
    reveal_strlit(".");
    reveal_strlit("cache");
    reveal_strlit("dev");
    reveal_strlit("system");
    reveal_strlit("user");
    reveal_strlit("Library");
    reveal_strlit("Caches");
    reveal_strlit("~/Library/Caches");
    reveal_strlit("~/.npm");
    reveal_strlit("~/.yarn/berry/cache");
    reveal_strlit("~/.cocoapods");
    reveal_strlit("~/.cargo/registry");
    reveal_strlit("~/go/pkg/mod");
    reveal_strlit("~/.gradle");
    let at = catalog::catalog()[i].path;
    let place = catalog::location(catalog::catalog()[i], Some(h));
    let nil = Seq::<char>::empty();
    assert("dev"@[0] != "cache"@[0]);
    assert("system"@[0] != "cache"@[0]);
    assert("user"@[0] != "cache"@[0]);
    assert(i == 5 || i == 6 || i == 7 || i == 9 || i == 10 || i == 11 || i == 12);
    assert(place == h + at.skip(1));
    if i == 5 {
        let n = "Library"@;
        assert(n.len() == 7 && !n.contains('/'));
        names_are_components(h, n);
        assert(!"Caches"@.contains('/'));
        names_are_components(h + "/"@ + n, "Caches"@);
        assert(place =~= h + "/"@ + n + "/"@ + "Caches"@);
    } else if i == 6 {
        lemma_first_below(h, seq!['.', 'n', 'p', 'm'], nil);
        assert(place =~= h + "/"@ + seq!['.', 'n', 'p', 'm'] + nil);
    } else if i == 7 {
        let n = seq!['.', 'y', 'a', 'r', 'n'];
        let tail = at.skip(7);
        lemma_first_below(h, n, tail);
        assert(place =~= h + "/"@ + n + tail);
    } else if i == 9 {
        let n = at.skip(2);
        assert(!n.contains('/'));
        lemma_first_below(h, n, nil);
        assert(place =~= h + "/"@ + n + nil);
        assert(n[0] == '.');
    } else if i == 10 {
        let n = seq!['.', 'c', 'a', 'r', 'g', 'o'];
        let tail = at.skip(8);
        assert(n.len() == 6 && !n.contains('/'));
        lemma_first_below(h, n, tail);
        assert(place =~= h + "/"@ + n + tail);
    } else if i == 11 {
        let n = seq!['g', 'o'];
        let tail = at.skip(4);
        lemma_first_below(h, n, tail);
        assert(place =~= h + "/"@ + n + tail);
    } else {
        let n = at.skip(2);
        assert(!n.contains('/'));
        lemma_first_below(h, n, nil);
        assert(place =~= h + "/"@ + n + nil);
        assert(n[0] == '.');
    }
}

/// A folder of an app below the user's Library, outside its caches, is app data, whatever its
/// name: nothing in the app containers, the application support or the group containers is
/// ever taken for a cache for where it stands.
pub proof fn folders_of_apps_are_app_data(h: Seq<char>, zone: Seq<char>, name: Seq<char>)
    requires
        h.len() > 0,
        plain_name(zone),
        plain_name(name),
        !path::components(h).contains("Caches"@),
        zone != "Caches"@,
        name != "Caches"@,
        ({
            let at = h + "/"@ + "Library"@ + "/"@ + zone + "/"@ + name;
            !stands_in(at, "/var/folders/"@) && !stands_in(at, "/Library/Caches/"@)
        }),
    ensures
        anomaly::kind_of(
            h + "/"@ + "Library"@ + "/"@ + zone + "/"@ + name,
            Some(h),
        ) == AnomalyKind::AppData,
{
    reveal_strlit("Library");
    reveal_strlit("Caches");
    reveal_strlit(".");
    let at = h + "/"@ + "Library"@ + "/"@ + zone + "/"@ + name;
    let cs = path::components(h);
    let k = cs.len() as int;
    assert(!"Library"@.contains('/'));
    assert("Library"@ != "Caches"@) by {
        assert("Library"@[0] != "Caches"@[0]);
    }
    names_are_components(h, "Library"@);
    names_are_components(h + "/"@ + "Library"@, zone);
    names_are_components(h + "/"@ + "Library"@ + "/"@ + zone, name);
    let xs = path::components(at);
    assert(xs =~= cs.push("Library"@).push(zone).push(name));
    assert(!xs.contains("Caches"@)) by {
        if xs.contains("Caches"@) {
            let j = choose|j: int| 0 <= j < xs.len() && xs[j] == "Caches"@;
            if j < k {
                assert(cs[j] == "Caches"@);
            }
        }
    }
    assert forall|i: int|
        0 <= i < catalog::catalog().len() && (#[trigger] catalog::catalog()[i]).safe_auto
            && catalog::catalog()[i].category == "cache"@ implies !path::under(
        at,
        catalog::location(catalog::catalog()[i], Some(h)),
    ) by {
        lemma_cache_places(h, i);
        let root = catalog::location(catalog::catalog()[i], Some(h));
        let place = path::components(root);
        if place[k] != "Library"@ {
            lemma_not_under(at, root, k);
        } else {
            lemma_not_under(at, root, k + 1);
        }
    }
    only_known_places_are_caches(at, Some(h));
}

/// Severity goes by kind and size: a cache is informational, app data is a warning from 2 GiB
/// on and critical from 10 GiB on.
pub proof fn severity_goes_by_kind_and_size(bytes: nat)
    ensures
        anomaly::severity_of(AnomalyKind::Cache, bytes) == Severity::Info,
        anomaly::severity_of(AnomalyKind::AppData, bytes) == Severity::Critical <==> bytes
            >= 10_737_418_240,
        anomaly::severity_of(AnomalyKind::AppData, bytes) == Severity::Info <==> bytes
            < 2_147_483_648,
{
}

} // verus!
