//! Uninstalling: which app is meant, and what belongs to it.

use vstd::prelude::*;

use crate::laws::classes::stands_in;
use crate::path;
use crate::report::{Confidence, UninstallPlan};
use crate::text;
use crate::uninstall;
use crate::uninstall::{LeftoverView, LibraryFile};

verus! {

proof fn lemma_stands(at: Seq<char>, part: Seq<char>)
    ensures
        text::occurs(at, part) == stands_in(at, part),
{
    if text::occurs(at, part) {
        let k = choose|k: int| text::occurs_at(at, part, k);
        assert(at.subrange(k, k + part.len()) == part);
    }
    if stands_in(at, part) {
        let k = choose|k: int|
            0 <= k && k + part.len() <= at.len() && #[trigger] at.subrange(k, k + part.len())
                == part;
        assert(text::occurs_at(at, part, k));
    }
}

/// A file belongs to an app surely where its name, in lower case, holds the bundle id; probably
/// where it does not, but has the whole name of the app in front; and in no other case. So a
/// name that is shorter than that of the app and does not hold the id never belongs to it.
pub proof fn a_leftover_holds_the_id_or_begins_with_the_name(
    file: Seq<char>,
    app: Seq<char>,
    id: Option<Seq<char>>,
)
    ensures
        ({
            let n = text::lowercase(file);
            let a = text::lowercase(app);
            let sure = id is Some && stands_in(n, text::lowercase(id.unwrap()));
            let front = a.len() <= n.len() && n.take(a.len() as int) == a;
            let r = uninstall::belongs(file, app, id);
            &&& r == Some(Confidence::High) <==> sure
            &&& r == Some(Confidence::Medium) <==> !sure && front
            &&& r is None <==> !sure && !front
            &&& n.len() < a.len() && !sure ==> r is None
        }),
{
    let n = text::lowercase(file);
    let a = text::lowercase(app);
    if id is Some {
        lemma_stands(n, text::lowercase(id.unwrap()));
    }
    if a.len() <= n.len() {
        assert(n.take(a.len() as int) =~= n.subrange(0, a.len() as int));
    }
}

/// The leftovers of a location are the files that belong to the app, in order, each with its
/// path and size, the confidence of its name, and the location.
pub proof fn leftovers_are_the_files_that_belong(
    listing: Seq<LibraryFile>,
    f: LibraryFile,
    location: Seq<char>,
    app: Seq<char>,
    id: Option<Seq<char>>,
)
    ensures
        uninstall::leftovers_in(Seq::empty(), location, app, id).len() == 0,
        uninstall::belongs(f.name@, app, id) is None ==> uninstall::leftovers_in(
            listing.push(f),
            location,
            app,
            id,
        ) == uninstall::leftovers_in(listing, location, app, id),
        uninstall::belongs(f.name@, app, id) matches Some(c) ==> uninstall::leftovers_in(
            listing.push(f),
            location,
            app,
            id,
        ) == uninstall::leftovers_in(listing, location, app, id).push(
            LeftoverView { path: f.path@, bytes: f.bytes as nat, confidence: c, location },
        ),
{
    assert(listing.push(f).drop_last() =~= listing);
}

/// The leftovers of all locations are those of each, one after the other.
pub proof fn leftovers_come_from_every_location(
    libs: Seq<(Seq<char>, Seq<char>)>,
    lib: (Seq<char>, Seq<char>),
    listings: Seq<Vec<LibraryFile>>,
    app: Seq<char>,
    id: Option<Seq<char>>,
)
    ensures
        uninstall::leftovers_of(Seq::empty(), listings, app, id).len() == 0,
        uninstall::leftovers_of(libs.push(lib), listings, app, id) == uninstall::leftovers_of(
            libs,
            listings,
            app,
            id,
        ) + uninstall::leftovers_in(listings[libs.len() as int]@, lib.1, app, id),
{
    assert(libs.push(lib).drop_last() =~= libs);
}

/// Whether `i` is the first of the apps with the shortest name among those that hold `query`.
pub open spec fn shortest_holder(
    names: Seq<Option<Seq<char>>>,
    query: Seq<char>,
    i: int,
) -> bool {
    &&& 0 <= i < names.len()
    &&& names[i] is Some
    &&& text::occurs(names[i].unwrap(), query)
    &&& forall|j: int|
        0 <= j < names.len() && (#[trigger] names[j]) is Some && text::occurs(
            names[j].unwrap(),
            query,
        ) ==> {
            let a = vstd::utf8::encode_utf8(names[i].unwrap()).len();
            let b = vstd::utf8::encode_utf8(names[j].unwrap()).len();
            a <= b && (j < i ==> a < b)
        }
}

proof fn lemma_closest(names: Seq<Option<Seq<char>>>, query: Seq<char>)
    ensures
        match uninstall::closest_app(names, query) {
            Some(i) => shortest_holder(names, query, i),
            None => forall|j: int|
                0 <= j < names.len() && (#[trigger] names[j]) is Some ==> !text::occurs(
                    names[j].unwrap(),
                    query,
                ),
        },
    decreases names.len(),
{
    if names.len() > 0 {
        let rest = names.drop_last();
        lemma_closest(rest, query);
        assert forall|j: int| 0 <= j < rest.len() implies rest[j] == names[j] by {}
        match uninstall::closest_app(names, query) {
            Some(i) => {
                assert forall|j: int|
                    0 <= j < names.len() && (#[trigger] names[j]) is Some && text::occurs(
                        names[j].unwrap(),
                        query,
                    ) implies {
                    let a = vstd::utf8::encode_utf8(names[i].unwrap()).len();
                    let b = vstd::utf8::encode_utf8(names[j].unwrap()).len();
                    a <= b && (j < i ==> a < b)
                } by {
                    if j < rest.len() {
                        assert(rest[j] == names[j]);
                    }
                    if let Some(b) = uninstall::closest_app(rest, query) {
                        assert(rest[b] == names[b]);
                    }
                }
            },
            None => {
                assert forall|j: int|
                    0 <= j < names.len() && (#[trigger] names[j]) is Some implies !text::occurs(
                    names[j].unwrap(),
                    query,
                ) by {
                    if j < rest.len() {
                        assert(rest[j] == names[j]);
                    }
                }
            },
        }
    }
}

proof fn lemma_exact(names: Seq<Option<Seq<char>>>, query: Seq<char>)
    ensures
        match uninstall::exact_app(names, query) {
            Some(i) => 0 <= i < names.len() && names[i] == Some(query) && forall|j: int|
                0 <= j < i ==> #[trigger] names[j] != Some(query),
            None => forall|j: int| 0 <= j < names.len() ==> #[trigger] names[j] != Some(query),
        },
    decreases names.len(),
{
    if names.len() > 0 {
        let rest = names.drop_last();
        lemma_exact(rest, query);
        assert forall|j: int| 0 <= j < rest.len() implies rest[j] == names[j] by {}
        match uninstall::exact_app(names, query) {
            Some(i) => {
                assert forall|j: int| 0 <= j < i implies #[trigger] names[j] != Some(query) by {
                    assert(rest[j] == names[j]);
                }
            },
            None => {
                assert forall|j: int| 0 <= j < names.len() implies #[trigger] names[j] != Some(
                    query,
                ) by {
                    if j < rest.len() {
                        assert(rest[j] == names[j]);
                    }
                }
            },
        }
    }
}

/// A query means the first app of exactly that name; where there is none, the first of those
/// with the shortest name that holds it; and no app exactly where no name holds it.
pub proof fn a_query_means_the_closest_name(names: Seq<Option<Seq<char>>>, query: Seq<char>)
    ensures
        match uninstall::picked(names, query) {
            Some(i) => {
                ||| 0 <= i < names.len() && names[i] == Some(query) && forall|j: int|
                    0 <= j < i ==> #[trigger] names[j] != Some(query)
                ||| shortest_holder(names, query, i) && forall|j: int|
                    0 <= j < names.len() ==> #[trigger] names[j] != Some(query)
            },
            None => forall|j: int|
                0 <= j < names.len() && (#[trigger] names[j]) is Some ==> !text::occurs(
                    names[j].unwrap(),
                    query,
                ),
        },
{
    lemma_exact(names, query);
    lemma_closest(names, query);
}

/// A query that is the path of a bundle that is there means that bundle. Any other means one of
/// the listed bundles whose name, in lower case, holds the query in lower case, and something
/// exactly where there is such a bundle.
pub proof fn a_query_means_a_bundle(query: Seq<char>, there: bool, apps: Seq<Seq<char>>)
    ensures
        uninstall::is_bundle(query) && there ==> uninstall::app_for(query, there, apps) == Some(
            query,
        ),
        !(uninstall::is_bundle(query) && there) ==> {
            &&& uninstall::app_for(query, there, apps) matches Some(at) ==> exists|i: int|
                0 <= i < apps.len() && (#[trigger] apps[i]) == at && uninstall::is_bundle(at)
                    && text::occurs(uninstall::low_stem(at), text::lowercase(query))
            &&& uninstall::app_for(query, there, apps) is None ==> forall|i: int|
                0 <= i < apps.len() && uninstall::is_bundle(#[trigger] apps[i]) ==> !text::occurs(
                    uninstall::low_stem(apps[i]),
                    text::lowercase(query),
                )
        },
{
    let names = uninstall::listed_names(apps);
    let q = text::lowercase(query);
    a_query_means_the_closest_name(names, q);
    assert(text::occurs(q, q)) by {
        assert(q.subrange(0, q.len() as int) =~= q);
        assert(text::occurs_at(q, q, 0));
    }
    match uninstall::picked(names, q) {
        Some(i) => {
            assert(names[i] is Some);
            assert(apps[i] == apps[i]);
        },
        None => {
            assert forall|i: int|
                0 <= i < apps.len() && uninstall::is_bundle(#[trigger] apps[i]) implies !text::occurs(
                uninstall::low_stem(apps[i]),
                q,
            ) by {
                assert(names[i] == Some(uninstall::low_stem(apps[i])));
            }
        },
    }
}

/// A path is that of a bundle exactly where its file name ends in a dot and `app`, in whatever
/// case, behind something else.
pub proof fn bundles_end_in_app(at: Seq<char>)
    ensures
        uninstall::is_bundle(at) <==> path::file_name_of(at) is Some && path::split_at_dot(
            path::file_name_of(at).unwrap(),
        ).1 is Some && text::same_but_ascii_case(
            path::split_at_dot(path::file_name_of(at).unwrap()).1.unwrap(),
            "app"@,
        ),
{
}

/// What reading a bundle id printed is the id without white space around it, where reading it
/// succeeded and anything is left.
pub proof fn an_id_is_what_was_printed(output: Seq<char>)
    ensures
        uninstall::printed_id(false, output) is None,
        text::trimmed(output).len() == 0 ==> uninstall::printed_id(true, output) is None,
        text::trimmed(output).len() > 0 ==> uninstall::printed_id(true, output) == Some(
            text::trimmed(output),
        ),
{
}

/// A plan removes its bundle first, where it has one, then each of its leftovers, and nothing
/// else.
pub proof fn a_plan_removes_what_it_names(plan: UninstallPlan, i: int)
    requires
        0 <= i < plan.leftovers@.len(),
    ensures
        ({
            let all = uninstall::removals(plan);
            let first: int = if plan.app_path is Some { 1 } else { 0 };
            &&& all.len() == first + plan.leftovers@.len()
            &&& plan.app_path matches Some(at) ==> all[0] == (at, plan.app_bytes)
            &&& all[first + i] == (plan.leftovers@[i].path, plan.leftovers@[i].bytes)
        }),
{
}

/// The bytes of a plan are those of the bundle and of each leftover.
pub proof fn a_plan_holds_all_its_bytes(plan: UninstallPlan, fewer: UninstallPlan)
    requires
        plan.leftovers@.len() > 0,
        fewer.leftovers@ == plan.leftovers@.drop_last(),
        fewer.app_bytes == plan.app_bytes,
    ensures
        uninstall::plan_bytes(plan) == uninstall::plan_bytes(fewer)
            + plan.leftovers@.last().bytes,
        fewer.leftovers@.len() == 0 ==> uninstall::plan_bytes(fewer) == fewer.app_bytes,
{
    let all = crate::order::views(plan.leftovers@);
    assert(all.drop_last() =~= crate::order::views(fewer.leftovers@));
    assert(all.last() == plan.leftovers@.last()@);
}

/// The keys of the installed apps are the names and the ids of the bundles, in lower case, and
/// no others.
pub proof fn keys_are_names_and_ids(
    apps: Seq<String>,
    ids: Seq<Option<String>>,
    key: Seq<char>,
)
    requires
        ids.len() == apps.len(),
    ensures
        uninstall::app_keys(apps, ids).contains(key) <==> exists|i: int|
            0 <= i < apps.len() && uninstall::is_bundle((#[trigger] apps[i])@) && (key
                == uninstall::low_stem(apps[i]@) || (ids[i] is Some && key == text::lowercase(
                ids[i].unwrap()@,
            ))),
{
    lemma_keys(apps, ids, key);
}

proof fn lemma_keys(apps: Seq<String>, ids: Seq<Option<String>>, key: Seq<char>)
    requires
        ids.len() >= apps.len(),
    ensures
        uninstall::app_keys(apps, ids).contains(key) <==> exists|i: int|
            0 <= i < apps.len() && uninstall::is_bundle((#[trigger] apps[i])@) && (key
                == uninstall::low_stem(apps[i]@) || (ids[i] is Some && key == text::lowercase(
                ids[i].unwrap()@,
            ))),
    decreases apps.len(),
{
    if apps.len() > 0 {
        let rest = apps.drop_last();
        lemma_keys(rest, ids, key);
        let n = apps.len() - 1;
        assert(apps[n] == apps.last());
        if uninstall::app_keys(rest, ids).contains(key) {
            let i = choose|i: int|
                0 <= i < rest.len() && uninstall::is_bundle((#[trigger] rest[i])@) && (key
                    == uninstall::low_stem(rest[i]@) || (ids[i] is Some && key == text::lowercase(
                    ids[i].unwrap()@,
                )));
            assert(apps[i] == rest[i]);
        }
        if exists|i: int|
            0 <= i < apps.len() && uninstall::is_bundle((#[trigger] apps[i])@) && (key
                == uninstall::low_stem(apps[i]@) || (ids[i] is Some && key == text::lowercase(
                ids[i].unwrap()@,
            ))) {
            let i = choose|i: int|
                0 <= i < apps.len() && uninstall::is_bundle((#[trigger] apps[i])@) && (key
                    == uninstall::low_stem(apps[i]@) || (ids[i] is Some && key == text::lowercase(
                    ids[i].unwrap()@,
                )));
            if i < n {
                assert(rest[i] == apps[i]);
            }
        }
    }
}

/// The name of an app is its file name without the extension, and is compared in lower case.
pub proof fn apps_are_named_by_their_stems(d: Seq<char>, stem: Seq<char>, ext: Seq<char>)
    requires
        stem.len() > 0,
        !stem.contains('/'),
        !ext.contains('/'),
        !ext.contains('.'),
        ext.len() > 0,
        d.len() > 0,
    ensures
        uninstall::stem_of(d + "/"@ + (stem.push('.') + ext)) == stem,
        uninstall::low_stem(d + "/"@ + (stem.push('.') + ext)) == text::lowercase(stem),
{
    reveal_strlit("/");
    reveal_strlit(".");
    reveal_strlit("..");
    let n = stem.push('.') + ext;
    assert(n.len() >= 3);
    assert forall|i: int| 0 <= i < n.len() implies n[i] != '/' by {
        if i < stem.len() {
            assert(stem.contains(stem[i]));
        } else if i > stem.len() {
            assert(ext.contains(ext[i - stem.len() - 1]));
        }
    }
    crate::laws::paths::names_are_components(d, n);
    assert(n != "/"@ && n != "."@ && n != ".."@) by {
        assert("/"@.len() == 1 && "."@.len() == 1 && ".."@.len() == 2);
    }
    n.index_of_last_ensures('.');
    assert(n[stem.len() as int] == '.');
    assert(n.contains('.'));
    let k = n.index_of_last('.').unwrap();
    if k > stem.len() {
        assert(ext.contains(ext[k - stem.len() - 1]));
    }
    assert(k == stem.len());
    assert(n.take(k) =~= stem);
}

} // verus!
