//! Heuristic app uninstaller. Resolve an app to its bundle id, then look in the known Library
//! locations for support files whose name carries that bundle id (high confidence) or starts
//! with the app's name (medium, review first). Nothing is ever hard-deleted here.

use vstd::prelude::*;
use vstd::string::*;

use crate::engine;
use crate::engine::is_safe_to_trash;
use crate::order;
use crate::order::sort_by_view;
use crate::path;
use crate::path::{extension, file_stem, join_path};
use crate::report::{Confidence, Leftover, UninstallOutcome, UninstallPlan};
use crate::text;
use crate::text::{begins_with, contains_text, eq_ignore_ascii_case, same_text, trim_text};

verus! {

/// A Library location that apps scatter support files across, and how it is shown.
#[derive(Debug, Clone, Copy)]
pub struct LibraryDir {
    pub path: &'static str,
    pub location: &'static str,
}

impl View for LibraryDir {
    type V = (Seq<char>, Seq<char>);

    open spec fn view(&self) -> (Seq<char>, Seq<char>) {
        library_view(self.path, self.location)
    }
}

/// A location with these texts.
pub open spec fn library_view(path: &str, location: &str) -> (Seq<char>, Seq<char>) {
    (path@, location@)
}

/// The per-user Library locations.
pub open spec fn libraries() -> Seq<(Seq<char>, Seq<char>)> {
    seq![
        library_view("~/Library/Application Support", "Application Support"),
        library_view("~/Library/Caches", "Caches"),
        library_view("~/Library/Preferences", "Preferences"),
        library_view("~/Library/Containers", "Containers"),
        library_view("~/Library/Group Containers", "Group Containers"),
        library_view("~/Library/Logs", "Logs"),
        library_view("~/Library/Saved Application State", "Saved Application State"),
        library_view("~/Library/WebKit", "WebKit"),
        library_view("~/Library/HTTPStorages", "HTTPStorages"),
        library_view("~/Library/Cookies", "Cookies"),
        library_view("~/Library/LaunchAgents", "LaunchAgents"),
    ]
}

/// The per-user Library locations apps scatter support files across.
pub fn library_dirs() -> (r: Vec<LibraryDir>)
    ensures
        order::views(r@) == libraries(),
{
    let r = vec![
        LibraryDir { path: "~/Library/Application Support", location: "Application Support" },
        LibraryDir { path: "~/Library/Caches", location: "Caches" },
        LibraryDir { path: "~/Library/Preferences", location: "Preferences" },
        LibraryDir { path: "~/Library/Containers", location: "Containers" },
        LibraryDir { path: "~/Library/Group Containers", location: "Group Containers" },
        LibraryDir { path: "~/Library/Logs", location: "Logs" },
        LibraryDir {
            path: "~/Library/Saved Application State",
            location: "Saved Application State",
        },
        LibraryDir { path: "~/Library/WebKit", location: "WebKit" },
        LibraryDir { path: "~/Library/HTTPStorages", location: "HTTPStorages" },
        LibraryDir { path: "~/Library/Cookies", location: "Cookies" },
        LibraryDir { path: "~/Library/LaunchAgents", location: "LaunchAgents" },
    ];
    assert(order::views(r@) =~= libraries());
    r
}

/// The directories that hold apps.
pub fn app_dirs(home: &Option<String>) -> (r: Vec<String>)
    ensures
        text::texts(r@) == match *home {
            Some(h) => seq!["/Applications"@, path::joined_path(h@, "Applications"@)],
            None => seq!["/Applications"@],
        },
{
    let mut r: Vec<String> = Vec::new();
    r.push("/Applications".to_owned());
    match home {
        Some(h) => {
            r.push(join_path(h.as_str(), "Applications"));
            assert(text::texts(r@) =~= seq![
                "/Applications"@,
                path::joined_path(h@, "Applications"@),
            ]);
        },
        None => {
            assert(text::texts(r@) =~= seq!["/Applications"@]);
        },
    }
    r
}

/// Whether a path is that of an app bundle.
pub open spec fn is_bundle(at: Seq<char>) -> bool {
    match path::extension_of(at) {
        Some(e) => text::same_but_ascii_case(e, "app"@),
        None => false,
    }
}

/// Tests whether a path is that of an app bundle.
pub fn is_app_bundle(at: &str) -> (r: bool)
    ensures
        r == is_bundle(at@),
{
    match extension(at) {
        Some(e) => eq_ignore_ascii_case(e.as_str(), "app"),
        None => false,
    }
}

/// The name of an app: its file name without the extension.
pub open spec fn stem_of(at: Seq<char>) -> Seq<char> {
    match path::file_name_of(at) {
        Some(n) => path::split_at_dot(n).0,
        None => text::nil(),
    }
}

/// The name of an app in lower case.
pub open spec fn low_stem(at: Seq<char>) -> Seq<char> {
    text::lowercase(stem_of(at))
}

/// The length of a text in bytes.
pub open spec fn byte_len(s: Seq<char>) -> nat {
    vstd::utf8::encode_utf8(s).len()
}

fn lower_stem(at: &str) -> (r: String)
    ensures
        r@ == low_stem(at@),
{
    let stem = match file_stem(at) {
        Some(s) => s,
        None => {
            let none = String::new();
            assert(none@ =~= text::nil());
            none
        },
    };
    stem.as_str().to_lowercase()
}

/// Names by their views; `None` stands for what is no app.
pub open spec fn name_views(names: Seq<Option<String>>) -> Seq<Option<Seq<char>>> {
    Seq::new(names.len(), |i: int| text::opt_text(names[i]))
}

/// The first app whose name is the query.
pub open spec fn exact_app(names: Seq<Option<Seq<char>>>, query: Seq<char>) -> Option<int>
    decreases names.len(),
{
    if names.len() == 0 {
        None
    } else {
        match exact_app(names.drop_last(), query) {
            Some(i) => Some(i),
            None => if names.last() == Some(query) { Some(names.len() - 1) } else { None },
        }
    }
}

/// The first of the apps with the shortest name that holds the query.
pub open spec fn closest_app(names: Seq<Option<Seq<char>>>, query: Seq<char>) -> Option<int>
    decreases names.len(),
{
    if names.len() == 0 {
        None
    } else {
        let best = closest_app(names.drop_last(), query);
        match names.last() {
            Some(n) => if text::occurs(n, query) && (match best {
                Some(b) => byte_len(n) < byte_len(names[b].unwrap()),
                None => true,
            }) {
                Some(names.len() - 1)
            } else {
                best
            },
            None => best,
        }
    }
}

/// The app that a query means: one of that name, else the shortest name that holds it.
pub open spec fn picked(names: Seq<Option<Seq<char>>>, query: Seq<char>) -> Option<int> {
    match exact_app(names, query) {
        Some(i) => Some(i),
        None => closest_app(names, query),
    }
}

/// An index that may be missing, as an integer.
pub open spec fn index_view(i: Option<usize>) -> Option<int> {
    match i {
        Some(k) => Some(k as int),
        None => None,
    }
}

proof fn lemma_exact_stays(names: Seq<Option<Seq<char>>>, query: Seq<char>, k: int)
    requires
        0 <= k <= names.len(),
        exact_app(names.take(k), query) is Some,
    ensures
        exact_app(names, query) == exact_app(names.take(k), query),
    decreases names.len(),
{
    if k < names.len() {
        assert(names.drop_last().take(k) =~= names.take(k));
        lemma_exact_stays(names.drop_last(), query, k);
    } else {
        assert(names.take(k) =~= names);
    }
}

/// Picks the app that a query means, by name: an exact match wins, else the shortest name that
/// holds the query, the first of several.
pub fn pick_app(names: &Vec<Option<String>>, query: &str) -> (r: Option<usize>)
    ensures
        index_view(r) == picked(name_views(names@), query@),
        r matches Some(i) ==> i < names@.len(),
{
    let ghost all = name_views(names@);
    let mut best: Option<usize> = None;
    let mut best_len: usize = 0;
    let mut i: usize = 0;
    assert(all.take(0) =~= Seq::<Option<Seq<char>>>::empty());
    while i < names.len()
        invariant
            i <= names@.len(),
            all == name_views(names@),
            exact_app(all.take(i as int), query@) is None,
            match best {
                Some(b) => b < i && closest_app(all.take(i as int), query@) == Some(b as int)
                    && best_len == byte_len(all[b as int].unwrap()),
                None => closest_app(all.take(i as int), query@) is None,
            },
        decreases names@.len() - i,
    {
        let ghost now = all.take(i + 1);
        proof {
            assert(now.drop_last() =~= all.take(i as int));
            assert(now.last() == text::opt_text(names@[i as int]));
        }
        if let Some(stem) = &names[i] {
            if same_text(stem.as_str(), query) {
                proof {
                    assert(exact_app(now, query@) == Some(i as int));
                    lemma_exact_stays(all, query@, i + 1);
                }
                return Some(i);
            }
            if contains_text(stem.as_str(), query) {
                let len = text_bytes(stem.as_str());
                let closer = match best {
                    Some(_) => len < best_len,
                    None => true,
                };
                if closer {
                    best = Some(i);
                    best_len = len;
                }
            }
        }
        i += 1;
    }
    assert(all.take(all.len() as int) =~= all);
    best
}

/// The names of listed paths, in lower case; `None` for what is no app bundle.
pub open spec fn listed_names(apps: Seq<Seq<char>>) -> Seq<Option<Seq<char>>> {
    Seq::new(
        apps.len(),
        |i: int|
            if is_bundle(apps[i]) {
                Some(low_stem(apps[i]))
            } else {
                None
            },
    )
}

/// The app that a query means: the query itself where it is a bundle that exists; else the
/// app picked by name, in lower case.
pub open spec fn app_for(
    query: Seq<char>,
    exists_there: bool,
    apps: Seq<Seq<char>>,
) -> Option<Seq<char>> {
    if is_bundle(query) && exists_there {
        Some(query)
    } else {
        match picked(listed_names(apps), text::lowercase(query)) {
            Some(i) => Some(apps[i]),
            None => None,
        }
    }
}

/// Resolves a query to an app. `exists_there` says whether the query, taken as a path,
/// exists; `apps` holds what the app directories list, in order.
pub fn find_app(query: &str, exists_there: bool, apps: &Vec<String>) -> (r: Option<String>)
    ensures
        text::opt_text(r) == app_for(query@, exists_there, text::texts(apps@)),
{
    if is_app_bundle(query) && exists_there {
        return Some(query.to_owned());
    }
    let ghost all = listed_names(text::texts(apps@));
    let mut names: Vec<Option<String>> = Vec::new();
    let mut i: usize = 0;
    assert(name_views(names@) =~= all.take(0));
    while i < apps.len()
        invariant
            i <= apps@.len(),
            all == listed_names(text::texts(apps@)),
            name_views(names@) == all.take(i as int),
        decreases apps@.len() - i,
    {
        let name = if is_app_bundle(apps[i].as_str()) {
            Some(lower_stem(apps[i].as_str()))
        } else {
            None
        };
        proof {
            assert(name_views(names@.push(name)) =~= name_views(names@).push(text::opt_text(name)));
            assert(all.take(i as int).push(text::opt_text(name)) =~= all.take(i + 1));
        }
        names.push(name);
        i += 1;
    }
    assert(all.take(all.len() as int) =~= all);
    assert(names@.len() == name_views(names@).len());
    let q = query.to_lowercase();
    match pick_app(&names, q.as_str()) {
        Some(k) => Some(apps[k].clone()),
        None => None,
    }
}

fn text_bytes(s: &str) -> (r: usize)
    ensures
        r == byte_len(s@),
{
    let b = s.as_bytes();
    b.len()
}

/// An app of exactly the asked name is always preferred.
pub proof fn exact_name_wins(names: Seq<Option<Seq<char>>>, query: Seq<char>, i: int)
    requires
        0 <= i < names.len(),
        names[i] == Some(query),
    ensures
        picked(names, query) matches Some(k) && 0 <= k <= i && names[k] == Some(query),
    decreases names.len(),
{
    if i < names.len() - 1 {
        exact_name_wins(names.drop_last(), query, i);
        lemma_exact_sound(names.drop_last(), query);
        lemma_exact_exists(names.drop_last(), query, i);
    } else {
        lemma_exact_sound(names.drop_last(), query);
    }
}

proof fn lemma_exact_exists(names: Seq<Option<Seq<char>>>, query: Seq<char>, i: int)
    requires
        0 <= i < names.len(),
        names[i] == Some(query),
    ensures
        exact_app(names, query) is Some,
    decreases names.len(),
{
    if i < names.len() - 1 {
        lemma_exact_exists(names.drop_last(), query, i);
    }
}

proof fn lemma_exact_sound(names: Seq<Option<Seq<char>>>, query: Seq<char>)
    ensures
        exact_app(names, query) matches Some(k) ==> 0 <= k < names.len() && names[k] == Some(query),
    decreases names.len(),
{
    if names.len() > 0 {
        lemma_exact_sound(names.drop_last(), query);
    }
}

/// Where the properties of an app bundle are kept.
pub fn info_path(app: &str) -> (r: String)
    ensures
        r@ == path::joined_path(app@, "Contents/Info"@),
{
    join_path(app, "Contents/Info")
}

/// The bundle id in what reading it printed: the trimmed output, where reading succeeded and
/// something is left.
pub open spec fn printed_id(success: bool, output: Seq<char>) -> Option<Seq<char>> {
    let id = text::trimmed(output);
    if success && id.len() > 0 { Some(id) } else { None }
}

/// Takes the bundle id from what reading it printed.
pub fn read_bundle_id(success: bool, output: &str) -> (r: Option<String>)
    ensures
        text::opt_text(r) == printed_id(success, output@),
{
    if !success {
        return None;
    }
    let id = trim_text(output);
    if id.as_str().unicode_len() > 0 {
        Some(id)
    } else {
        None
    }
}

/// How sure a file of that name belongs to an app. All three are in lower case.
pub open spec fn confidence_of(
    name: Seq<char>,
    app_name: Seq<char>,
    bundle_id: Option<Seq<char>>,
) -> Option<Confidence> {
    if bundle_id is Some && text::occurs(name, bundle_id.unwrap()) {
        Some(Confidence::High)
    } else if text::begins(name, app_name) {
        Some(Confidence::Medium)
    } else {
        None
    }
}

/// The lower case of a text that may be missing.
pub open spec fn low_opt(s: Option<Seq<char>>) -> Option<Seq<char>> {
    match s {
        Some(t) => Some(text::lowercase(t)),
        None => None,
    }
}

/// How sure a file of that name belongs to an app, whatever the case.
pub open spec fn belongs(
    name: Seq<char>,
    app_name: Seq<char>,
    bundle_id: Option<Seq<char>>,
) -> Option<Confidence> {
    confidence_of(text::lowercase(name), text::lowercase(app_name), low_opt(bundle_id))
}

/// How sure a file of that name belongs to an app: a name that carries the bundle id surely
/// does, one that starts with the app's name probably.
pub fn leftover_confidence(name: &str, app_name: &str, bundle_id: &Option<String>) -> (r: Option<
    Confidence,
>)
    ensures
        r == belongs(name@, app_name@, text::opt_text(*bundle_id)),
{
    let low = name.to_lowercase();
    let app = app_name.to_lowercase();
    let id = match bundle_id {
        Some(id) => Some(id.as_str().to_lowercase()),
        None => None,
    };
    grade_leftover(low.as_str(), app.as_str(), &id)
}

/// The grading, on texts that are in lower case already.
fn grade_leftover(name: &str, app_name: &str, bundle_id: &Option<String>) -> (r: Option<
    Confidence,
>)
    ensures
        r == confidence_of(name@, app_name@, text::opt_text(*bundle_id)),
{
    if let Some(id) = bundle_id {
        if contains_text(name, id.as_str()) {
            return Some(Confidence::High);
        }
    }
    if begins_with(name, app_name) {
        Some(Confidence::Medium)
    } else {
        None
    }
}

/// A file in a Library location, with its size.
#[derive(Debug)]
pub struct LibraryFile {
    pub name: String,
    pub path: String,
    pub bytes: u64,
}

/// What a leftover says.
pub struct LeftoverView {
    pub path: Seq<char>,
    pub bytes: nat,
    pub confidence: Confidence,
    pub location: Seq<char>,
}

impl View for Leftover {
    type V = LeftoverView;

    open spec fn view(&self) -> LeftoverView {
        LeftoverView {
            path: self.path@,
            bytes: self.bytes as nat,
            confidence: self.confidence,
            location: self.location@,
        }
    }
}

/// The leftovers among the first files of a location.
pub open spec fn leftovers_in(
    files: Seq<LibraryFile>,
    location: Seq<char>,
    app_name: Seq<char>,
    bundle_id: Option<Seq<char>>,
) -> Seq<LeftoverView>
    decreases files.len(),
{
    if files.len() == 0 {
        Seq::empty()
    } else {
        let rest = leftovers_in(files.drop_last(), location, app_name, bundle_id);
        let f = files.last();
        match belongs(f.name@, app_name, bundle_id) {
            Some(confidence) => rest.push(
                LeftoverView { path: f.path@, bytes: f.bytes as nat, confidence, location },
            ),
            None => rest,
        }
    }
}

/// The leftovers of the first locations.
pub open spec fn leftovers_of(
    libs: Seq<(Seq<char>, Seq<char>)>,
    listings: Seq<Vec<LibraryFile>>,
    app_name: Seq<char>,
    bundle_id: Option<Seq<char>>,
) -> Seq<LeftoverView>
    decreases libs.len(),
{
    if libs.len() == 0 {
        Seq::empty()
    } else {
        leftovers_of(libs.drop_last(), listings, app_name, bundle_id) + leftovers_in(
            listings[libs.len() - 1]@,
            libs.last().1,
            app_name,
            bundle_id,
        )
    }
}

/// Largest first.
pub open spec fn larger_leftover() -> spec_fn(LeftoverView, LeftoverView) -> bool {
    |a: LeftoverView, b: LeftoverView| a.bytes > b.bytes
}

fn leftover_is_larger(a: &Leftover, b: &Leftover) -> (r: bool)
    ensures
        r == (a.bytes > b.bytes),
{
    a.bytes > b.bytes
}

/// The support files of an app among what the Library locations list, largest first. A size
/// is needed only of those that belong to it.
pub fn find_leftovers(
    app_name: &str,
    bundle_id: &Option<String>,
    listings: &Vec<Vec<LibraryFile>>,
) -> (r: Vec<Leftover>)
    requires
        listings@.len() == libraries().len(),
    ensures
        order::views(r@) == order::ordered(
            leftovers_of(libraries(), listings@, app_name@, text::opt_text(*bundle_id)),
            larger_leftover(),
        ),
{
    let libs = library_dirs();
    let ghost all = libraries();
    let ghost id = text::opt_text(*bundle_id);
    let mut out: Vec<Leftover> = Vec::new();
    let mut i: usize = 0;
    proof {
        assert(libs@.len() == all.len());
        assert(all.take(0) =~= Seq::<(Seq<char>, Seq<char>)>::empty());
        assert(order::views(out@) =~= Seq::<LeftoverView>::empty());
    }
    while i < libs.len()
        invariant
            i <= libs@.len(),
            all == order::views(libs@),
            listings@.len() == libs@.len(),
            id == text::opt_text(*bundle_id),
            order::views(out@) == leftovers_of(all.take(i as int), listings@, app_name@, id),
        decreases libs@.len() - i,
    {
        let lib = libs[i];
        let here = &listings[i];
        let ghost before = order::views(out@);
        let mut j: usize = 0;
        proof {
            assert(here@.take(0) =~= Seq::<LibraryFile>::empty());
            assert(before + leftovers_in(here@.take(0), lib.location@, app_name@, id) =~= before);
        }
        while j < here.len()
            invariant
                j <= here@.len(),
                id == text::opt_text(*bundle_id),
                order::views(out@) == before + leftovers_in(
                    here@.take(j as int),
                    lib.location@,
                    app_name@,
                    id,
                ),
            decreases here@.len() - j,
        {
            proof {
                assert(here@.take(j + 1).drop_last() =~= here@.take(j as int));
                assert(here@.take(j + 1).last() == here@[j as int]);
            }
            match leftover_confidence(here[j].name.as_str(), app_name, bundle_id) {
                Some(confidence) => {
                    let l = Leftover {
                        path: here[j].path.clone(),
                        bytes: here[j].bytes,
                        confidence,
                        location: lib.location.to_owned(),
                    };
                    proof {
                        order::lemma_views_push(out@, l);
                        assert((before + leftovers_in(
                            here@.take(j as int),
                            lib.location@,
                            app_name@,
                            id,
                        )).push(l@) =~= before + leftovers_in(
                            here@.take(j + 1),
                            lib.location@,
                            app_name@,
                            id,
                        ));
                    }
                    out.push(l);
                },
                None => {},
            }
            j += 1;
        }
        proof {
            assert(here@.take(here@.len() as int) =~= here@);
            assert(all.take(i + 1).drop_last() =~= all.take(i as int));
            assert(all.take(i + 1).last() == lib@);
        }
        i += 1;
    }
    assert(all.take(all.len() as int) =~= all);
    sort_by_view(out, leftover_is_larger, Ghost(larger_leftover()))
}

/// The bytes of a leftover.
pub open spec fn leftover_bytes() -> spec_fn(LeftoverView) -> nat {
    |l: LeftoverView| l.bytes
}

/// The name of the app of a plan: the name of its bundle, else the query.
pub fn app_name(query: &str, app_path: &Option<String>) -> (r: String)
    ensures
        r@ == match *app_path {
            Some(p) => match path::file_name_of(p@) {
                Some(n) => path::split_at_dot(n).0,
                None => query@,
            },
            None => query@,
        },
{
    if let Some(p) = app_path {
        if let Some(s) = file_stem(p.as_str()) {
            return s;
        }
    }
    query.to_owned()
}

/// Builds the uninstall plan. Returns `None` if neither an app bundle nor a bundle id was
/// found. `app_bytes` is the size of the bundle; without one it does not count.
pub fn plan_uninstall(
    query: &str,
    app_path: Option<String>,
    bundle_id: Option<String>,
    app_bytes: u64,
    leftovers: Vec<Leftover>,
) -> (r: Option<UninstallPlan>)
    requires
        app_bytes + order::sum(order::views(leftovers@), leftover_bytes()) <= u64::MAX,
    ensures
        r is None == (app_path is None && bundle_id is None),
        r matches Some(plan) ==> {
            &&& plan.app_name@ == match app_path {
                Some(p) => match path::file_name_of(p@) {
                    Some(n) => path::split_at_dot(n).0,
                    None => query@,
                },
                None => query@,
            }
            &&& plan.bundle_id == bundle_id
            &&& plan.app_path == app_path
            &&& plan.app_bytes == (if app_path is Some { app_bytes } else { 0 })
            &&& plan.leftovers == leftovers
            &&& plan.total_bytes == plan_bytes(plan)
        },
{
    if app_path.is_none() && bundle_id.is_none() {
        return None;
    }
    let bytes: u64 = if app_path.is_some() {
        app_bytes
    } else {
        0
    };
    let ghost all = order::views(leftovers@);
    let mut sum: u64 = 0;
    let mut i: usize = 0;
    assert(all.take(0) =~= Seq::<LeftoverView>::empty());
    while i < leftovers.len()
        invariant
            i <= leftovers@.len(),
            all == order::views(leftovers@),
            order::sum(all, leftover_bytes()) <= u64::MAX,
            sum == order::sum(all.take(i as int), leftover_bytes()),
        decreases leftovers@.len() - i,
    {
        proof {
            order::lemma_sum_step(all, i as int, leftover_bytes());
        }
        sum += leftovers[i].bytes;
        i += 1;
    }
    assert(all.take(all.len() as int) =~= all);
    Some(
        UninstallPlan {
            app_name: app_name(query, &app_path),
            bundle_id,
            app_path,
            app_bytes: bytes,
            leftovers,
            total_bytes: bytes + sum,
        },
    )
}

/// The bytes of everything that a plan names.
pub open spec fn plan_bytes(plan: UninstallPlan) -> nat {
    plan.app_bytes as nat + order::sum(order::views(plan.leftovers@), leftover_bytes())
}

/// The paths that a plan removes with their sizes: the bundle first, then the leftovers.
pub open spec fn removals(plan: UninstallPlan) -> Seq<(String, u64)> {
    (match plan.app_path {
        Some(p) => seq![(p, plan.app_bytes)],
        None => Seq::empty(),
    }) + Seq::new(
        plan.leftovers@.len(),
        |i: int| (plan.leftovers@[i].path, plan.leftovers@[i].bytes),
    )
}

/// Whether `o` is what becomes of a removal: refused where it fails the guard, else what
/// `delete` said of its path.
pub open spec fn is_removed<F: Fn(&String) -> Result<(), String>>(
    o: UninstallOutcome,
    t: (String, u64),
    home: Option<Seq<char>>,
    delete: F,
) -> bool {
    &&& o.path == t.0
    &&& o.bytes == t.1
    &&& if !engine::safe_to_trash(t.0@, home) {
        !o.ok && text::opt_text(o.error) == Some("refused: failed safety guard"@)
    } else {
        exists|res: Result<(), String>| #[trigger]
            call_ensures(delete, (&t.0,), res) && o.ok == res is Ok && o.error == res.err()
    }
}

fn remove_one<F: Fn(&String) -> Result<(), String>>(
    at: &String,
    bytes: u64,
    home: &Option<String>,
    delete: &F,
) -> (r: UninstallOutcome)
    requires
        engine::safe_to_trash(at@, text::opt_text(*home)) ==> call_requires(*delete, (at,)),
    ensures
        is_removed(r, (*at, bytes), text::opt_text(*home), *delete),
{
    if !is_safe_to_trash(at.as_str(), home) {
        return UninstallOutcome {
            path: at.clone(),
            bytes,
            ok: false,
            error: Some("refused: failed safety guard".to_owned()),
        };
    }
    let res = delete(at);
    assert(call_ensures(*delete, (at,), res));
    match res {
        Ok(_) => UninstallOutcome { path: at.clone(), bytes, ok: true, error: None },
        Err(e) => UninstallOutcome { path: at.clone(), bytes, ok: false, error: Some(e) },
    }
}

/// Moves the app bundle and every leftover away with `delete`, which is never called on a
/// path that fails the safety guard.
pub fn execute_uninstall<F: Fn(&String) -> Result<(), String>>(
    plan: &UninstallPlan,
    home: &Option<String>,
    delete: F,
) -> (r: Vec<UninstallOutcome>)
    requires
        forall|i: int|
            0 <= i < removals(*plan).len() && engine::safe_to_trash(
                (#[trigger] removals(*plan)[i]).0@,
                text::opt_text(*home),
            ) ==> call_requires(delete, (&removals(*plan)[i].0,)),
    ensures
        r@.len() == removals(*plan).len(),
        forall|i: int|
            0 <= i < r@.len() ==> is_removed(
                #[trigger] r@[i],
                removals(*plan)[i],
                text::opt_text(*home),
                delete,
            ),
{
    let ghost all = removals(*plan);
    let ghost h = text::opt_text(*home);
    let mut r: Vec<UninstallOutcome> = Vec::new();
    if let Some(app) = &plan.app_path {
        assert(all[0] == (*app, plan.app_bytes));
        r.push(remove_one(app, plan.app_bytes, home, &delete));
    }
    let ghost first = r@.len();
    let mut i: usize = 0;
    while i < plan.leftovers.len()
        invariant
            i <= plan.leftovers@.len(),
            h == text::opt_text(*home),
            all == removals(*plan),
            first == (if plan.app_path is Some { 1nat } else { 0nat }),
            r@.len() == first + i,
            forall|i: int|
                0 <= i < all.len() && engine::safe_to_trash(
                    (#[trigger] all[i]).0@,
                    h,
                ) ==> call_requires(delete, (&all[i].0,)),
            forall|j: int|
                0 <= j < r@.len() ==> is_removed(#[trigger] r@[j], all[j], h, delete),
        decreases plan.leftovers@.len() - i,
    {
        let l = &plan.leftovers[i];
        assert(all[first + i] == (l.path, l.bytes));
        r.push(remove_one(&l.path, l.bytes, home, &delete));
        i += 1;
    }
    r
}

/// The lower-case names and bundle ids of installed apps.
pub open spec fn app_keys(apps: Seq<String>, ids: Seq<Option<String>>) -> Set<Seq<char>>
    decreases apps.len(),
{
    if apps.len() == 0 {
        Set::empty()
    } else {
        let rest = app_keys(apps.drop_last(), ids);
        let at = apps.last()@;
        if !is_bundle(at) {
            rest
        } else {
            let named = rest.insert(low_stem(at));
            match ids[apps.len() - 1] {
                Some(id) => named.insert(text::lowercase(id@)),
                None => named,
            }
        }
    }
}

/// The texts of a list as a set.
pub open spec fn key_set(keys: Seq<String>) -> Set<Seq<char>> {
    Set::new(|k: Seq<char>| exists|i: int| 0 <= i < keys.len() && (#[trigger] keys[i])@ == k)
}

fn add_key(keys: &mut Vec<String>, key: String)
    ensures
        key_set(final(keys)@) == key_set(old(keys)@).insert(key@),
        text::texts(old(keys)@).no_duplicates() ==> text::texts(final(keys)@).no_duplicates(),
{
    let ghost before = keys@;
    let mut i: usize = 0;
    while i < keys.len()
        invariant
            i <= keys@.len(),
            keys@ == before,
            forall|j: int| 0 <= j < i ==> (#[trigger] keys@[j])@ != key@,
        decreases keys@.len() - i,
    {
        if same_text(keys[i].as_str(), key.as_str()) {
            assert(keys@[i as int]@ == key@);
            assert(key_set(keys@) =~= key_set(before).insert(key@));
            return ;
        }
        i += 1;
    }
    keys.push(key);
    proof {
        let after = keys@;
        assert forall|k: Seq<char>| key_set(after).contains(k) == key_set(before).insert(
            key@,
        ).contains(k) by {
            if key_set(before).contains(k) {
                let j = choose|j: int| 0 <= j < before.len() && (#[trigger] before[j])@ == k;
                assert(after[j]@ == k);
            }
            if k == key@ {
                assert(after[after.len() - 1]@ == k);
            }
            if key_set(after).contains(k) && k != key@ {
                let j = choose|j: int| 0 <= j < after.len() && (#[trigger] after[j])@ == k;
                assert(j < before.len());
                assert(before[j]@ == k);
            }
        }
        assert(key_set(after) =~= key_set(before).insert(key@));
        if text::texts(before).no_duplicates() {
            let ts = text::texts(after);
            assert forall|a: int, b: int| 0 <= a < b < ts.len() implies ts[a] != ts[b] by {
                assert(ts[a] == before[a]@);
                if b < before.len() {
                    assert(text::texts(before)[a] != text::texts(before)[b]);
                }
            }
        }
    }
}

/// Lower-case names and bundle ids of every installed app, each once: the vocabulary a
/// baseline-worthy folder must match. `apps` holds what the app directories list, `ids` the
/// bundle id of each where it has one.
pub fn installed_app_keys(apps: &Vec<String>, ids: &Vec<Option<String>>) -> (r: Vec<String>)
    requires
        ids@.len() == apps@.len(),
    ensures
        key_set(r@) == app_keys(apps@, ids@),
        text::texts(r@).no_duplicates(),
{
    let mut keys: Vec<String> = Vec::new();
    let mut i: usize = 0;
    assert(apps@.take(0) =~= Seq::<String>::empty());
    assert(key_set(keys@) =~= Set::<Seq<char>>::empty());
    while i < apps.len()
        invariant
            i <= apps@.len(),
            ids@.len() == apps@.len(),
            key_set(keys@) == app_keys(apps@.take(i as int), ids@),
            text::texts(keys@).no_duplicates(),
        decreases apps@.len() - i,
    {
        proof {
            assert(apps@.take(i + 1).drop_last() =~= apps@.take(i as int));
            assert(apps@.take(i + 1).last() == apps@[i as int]);
        }
        if is_app_bundle(apps[i].as_str()) {
            add_key(&mut keys, lower_stem(apps[i].as_str()));
            if let Some(id) = &ids[i] {
                add_key(&mut keys, id.as_str().to_lowercase());
            }
        }
        i += 1;
    }
    assert(apps@.take(apps@.len() as int) =~= apps@);
    keys
}

/// Leftovers come largest first, none is lost, and ties keep their order.
pub proof fn leftovers_come_largest_first(s: Seq<LeftoverView>, x: LeftoverView)
    ensures
        order::in_order(order::ordered(s, larger_leftover()), larger_leftover()),
        order::ordered(s, larger_leftover()).to_multiset() == s.to_multiset(),
        order::tied_with(order::ordered(s, larger_leftover()), x, larger_leftover()) == order::tied_with(
            s,
            x,
            larger_leftover(),
        ),
{
    order::ordering_puts_in_order(s, larger_leftover());
    order::ordering_keeps_items(s, larger_leftover());
    order::ordering_is_stable(s, x, larger_leftover());
}

/// A leftover always belongs to the app: its name carries the bundle id, and it is graded
/// high, or starts with the app's name, and it is graded medium.
pub proof fn leftovers_belong_to_the_app(
    files: Seq<LibraryFile>,
    location: Seq<char>,
    app_name: Seq<char>,
    bundle_id: Option<Seq<char>>,
    i: int,
)
    requires
        0 <= i < leftovers_in(files, location, app_name, bundle_id).len(),
    ensures
        exists|k: int|
            0 <= k < files.len() && (#[trigger] files[k]).path@ == leftovers_in(
                files,
                location,
                app_name,
                bundle_id,
            )[i].path && belongs(files[k].name@, app_name, bundle_id) == Some(
                leftovers_in(files, location, app_name, bundle_id)[i].confidence,
            ),
    decreases files.len(),
{
    let rest = leftovers_in(files.drop_last(), location, app_name, bundle_id);
    let all = leftovers_in(files, location, app_name, bundle_id);
    if i < rest.len() {
        leftovers_belong_to_the_app(files.drop_last(), location, app_name, bundle_id, i);
        let k = choose|k: int|
            0 <= k < files.drop_last().len() && (#[trigger] files.drop_last()[k]).path@
                == rest[i].path && belongs(files.drop_last()[k].name@, app_name, bundle_id) == Some(
                rest[i].confidence,
            );
        assert(files[k] == files.drop_last()[k]);
        assert(all[i] == rest[i]);
    } else {
        assert(files[files.len() - 1] == files.last());
    }
}

} // verus!
