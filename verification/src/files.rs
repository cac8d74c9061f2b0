//! File-level finders: largest (and oldest) files, and exact duplicates.

use vstd::prelude::*;

use crate::order;
use crate::order::sort_by_view;
use crate::path;
use crate::path::join_path;
use crate::report::{DuplicateGroup, LargeFile};
use crate::scan::{Entry, Node};
use crate::text;

verus! {

/// Seconds in a day.
pub const DAY_SECS: u64 = 86_400;

/// How much of a file the first digest covers.
pub const QUICK_HASH_BYTES: usize = 16_384;

/// Whole days in an age, where it is known.
pub open spec fn days_in(age: Option<u64>) -> Option<u64> {
    match age {
        Some(secs) => Some((secs / DAY_SECS) as u64),
        None => None,
    }
}

/// Whole days since a time that lies `age` seconds back; nothing where that is not known.
pub fn days_since(age: Option<u64>) -> (r: Option<u64>)
    ensures
        r == days_in(age),
{
    match age {
        Some(secs) => Some(secs / DAY_SECS),
        None => None,
    }
}

/// A file with its size.
#[derive(Debug)]
pub struct SizedFile {
    pub path: String,
    pub bytes: u64,
}

impl View for SizedFile {
    type V = (Seq<char>, u64);

    open spec fn view(&self) -> (Seq<char>, u64) {
        (self.path@, self.bytes)
    }
}

/// The files under a node at `at` that hold at least `min` bytes, in the order of the walk.
/// The node itself counts only as a directory.
pub open spec fn files_from(at: Seq<char>, node: Node, min: u64) -> Seq<(Seq<char>, u64)>
    decreases node,
{
    match node {
        Node::Dir(entries) => files_among(at, entries@, min),
        _ => Seq::empty(),
    }
}

/// The files among and under the entries of the directory `at` that hold at least `min`.
pub open spec fn files_among(at: Seq<char>, entries: Seq<Entry>, min: u64) -> Seq<
    (Seq<char>, u64),
>
    decreases entries,
{
    if entries.len() == 0 {
        Seq::empty()
    } else {
        let e = entries[entries.len() - 1];
        let here = path::joined_path(at, e.name@);
        files_among(at, entries.drop_last(), min) + match e.node {
            Node::File(size) => if size >= min {
                seq![(here, size)]
            } else {
                Seq::empty()
            },
            _ => files_from(here, e.node, min),
        }
    }
}

/// Collects the files under a directory that hold at least `min_bytes`.
pub fn collect_files(at: &str, node: &Node, min_bytes: u64) -> (r: Vec<SizedFile>)
    ensures
        order::views(r@) == files_from(at@, *node, min_bytes),
    decreases node,
{
    let mut r: Vec<SizedFile> = Vec::new();
    assert(order::views(r@) =~= Seq::<(Seq<char>, u64)>::empty());
    match node {
        Node::Dir(entries) => {
            let mut i: usize = 0;
            assert(entries@.take(0) =~= Seq::<Entry>::empty());
            while i < entries.len()
                invariant
                    i <= entries@.len(),
                    *node == Node::Dir(*entries),
                    order::views(r@) == files_among(at@, entries@.take(i as int), min_bytes),
                decreases entries@.len() - i,
            {
                let ghost before = order::views(r@);
                proof {
                    let now = entries@.take(i + 1);
                    assert(now.drop_last() =~= entries@.take(i as int));
                    assert(now[now.len() - 1] == entries@[i as int]);
                    assert(decreases_to!(*node => node->Dir_0));
                    assert(decreases_to!(node->Dir_0 => entries@));
                    assert(decreases_to!(entries@ => entries@[i as int]));
                    assert(decreases_to!(entries@[i as int] => entries@[i as int].node));
                }
                let here = join_path(at, entries[i].name.as_str());
                match &entries[i].node {
                    Node::File(size) => {
                        if *size >= min_bytes {
                            let f = SizedFile { path: here, bytes: *size };
                            proof {
                                order::lemma_views_push(r@, f);
                                assert(before.push(f@) =~= before + seq![f@]);
                            }
                            r.push(f);
                        } else {
                            assert(before + Seq::<(Seq<char>, u64)>::empty() =~= before);
                        }
                    },
                    _ => {
                        let mut more = collect_files(here.as_str(), &entries[i].node, min_bytes);
                        let ghost tail = order::views(more@);
                        r.append(&mut more);
                        assert(order::views(r@) =~= before + tail);
                    },
                }
                i += 1;
            }
            assert(entries@.take(entries@.len() as int) =~= entries@);
        },
        _ => {},
    }
    r
}

/// How long ago a file was modified and read, in seconds, where that is known.
#[derive(Debug, Clone, Copy)]
pub struct Ages {
    pub modified: Option<u64>,
    pub accessed: Option<u64>,
}

/// What a large file says.
pub struct LargeView {
    pub path: Seq<char>,
    pub bytes: u64,
    pub modified_days: Option<u64>,
    pub accessed_days: Option<u64>,
}

impl View for LargeFile {
    type V = LargeView;

    open spec fn view(&self) -> LargeView {
        LargeView {
            path: self.path@,
            bytes: self.bytes,
            modified_days: self.modified_days,
            accessed_days: self.accessed_days,
        }
    }
}

/// Files with their ages in days.
pub open spec fn aged(files: Seq<(Seq<char>, u64)>, ages: Seq<Ages>) -> Seq<LargeView> {
    Seq::new(
        files.len(),
        |i: int|
            LargeView {
                path: files[i].0,
                bytes: files[i].1,
                modified_days: days_in(ages[i].modified),
                accessed_days: days_in(ages[i].accessed),
            },
    )
}

/// Largest first.
pub open spec fn larger_file() -> spec_fn(LargeView, LargeView) -> bool {
    |a: LargeView, b: LargeView| a.bytes > b.bytes
}

fn file_is_larger(a: &LargeFile, b: &LargeFile) -> (r: bool)
    ensures
        r == (a.bytes > b.bytes),
{
    a.bytes > b.bytes
}

/// The collected files with their ages, largest first. Only these files were asked for their
/// times.
pub fn find_large_files(files: &Vec<SizedFile>, ages: &Vec<Ages>) -> (r: Vec<LargeFile>)
    requires
        ages@.len() == files@.len(),
    ensures
        order::views(r@) == order::ordered(
            aged(order::views(files@), ages@),
            larger_file(),
        ),
{
    let mut out: Vec<LargeFile> = Vec::new();
    let mut i: usize = 0;
    let ghost all = aged(order::views(files@), ages@);
    assert(order::views(out@) =~= all.take(0));
    while i < files.len()
        invariant
            i <= files@.len(),
            ages@.len() == files@.len(),
            all == aged(order::views(files@), ages@),
            order::views(out@) == all.take(i as int),
        decreases files@.len() - i,
    {
        let f = LargeFile {
            path: files[i].path.clone(),
            bytes: files[i].bytes,
            modified_days: days_since(ages[i].modified),
            accessed_days: days_since(ages[i].accessed),
        };
        proof {
            order::lemma_views_push(out@, f);
            assert(all.take(i as int).push(f@) =~= all.take(i + 1));
        }
        out.push(f);
        i += 1;
    }
    assert(all.take(all.len() as int) =~= all);
    sort_by_view(out, file_is_larger, Ghost(larger_file()))
}

/// The BLAKE3 digest of a text of bytes.
pub uninterp spec fn digest(bytes: Seq<u8>) -> Seq<u8>;

/// Calls `blake3::hash`: the 32 bytes of the digest, which depend on the bytes alone.
#[verifier::external_body]
fn blake(bytes: &Vec<u8>) -> (r: Vec<u8>)
    ensures
        r@ == digest(bytes@),
        r@.len() == 32,
{
    blake3::hash(bytes).as_bytes().to_vec()
}

/// The part of a file that the first digest covers.
pub open spec fn head(bytes: Seq<u8>) -> Seq<u8> {
    if bytes.len() > QUICK_HASH_BYTES { bytes.take(QUICK_HASH_BYTES as int) } else { bytes }
}

/// The digest of the start of a file, which rules out near-misses without reading it whole.
pub fn quick_hash(start: &Vec<u8>) -> (r: Vec<u8>)
    ensures
        r@ == digest(head(start@)),
        r@.len() == 32,
{
    if start.len() > QUICK_HASH_BYTES {
        let mut part: Vec<u8> = Vec::new();
        let mut i: usize = 0;
        while i < QUICK_HASH_BYTES
            invariant
                i <= QUICK_HASH_BYTES,
                QUICK_HASH_BYTES < start@.len(),
                part@ == start@.take(i as int),
            decreases QUICK_HASH_BYTES - i,
        {
            part.push(start[i]);
            assert(start@.take(i + 1) =~= start@.take(i as int).push(start@[i as int]));
            i += 1;
        }
        blake(&part)
    } else {
        blake(start)
    }
}

/// The digest of a whole file.
pub fn full_hash(contents: &Vec<u8>) -> (r: Vec<u8>)
    ensures
        r@ == digest(contents@),
        r@.len() == 32,
{
    blake(contents)
}

/// A digest that may not be known, by its bytes.
pub open spec fn known(d: Option<Vec<u8>>) -> Option<Seq<u8>> {
    match d {
        Some(b) => Some(b@),
        None => None,
    }
}

/// Whether two digests are known and the same.
pub open spec fn same_digest(a: Option<Vec<u8>>, b: Option<Vec<u8>>) -> bool {
    known(a) is Some && known(a) == known(b)
}

fn is_same_digest(a: &Option<Vec<u8>>, b: &Option<Vec<u8>>) -> (r: bool)
    ensures
        r == same_digest(*a, *b),
{
    match (a, b) {
        (Some(x), Some(y)) => {
            if x.len() != y.len() {
                return false;
            }
            let mut i: usize = 0;
            while i < x.len()
                invariant
                    i <= x@.len(),
                    x@.len() == y@.len(),
                    *a == Some(*x),
                    *b == Some(*y),
                    forall|j: int| 0 <= j < i ==> x@[j] == y@[j],
                decreases x@.len() - i,
            {
                if x[i] != y[i] {
                    return false;
                }
                i += 1;
            }
            assert(x@ =~= y@);
            true
        },
        _ => false,
    }
}

/// Whether the files `i` and `j` have the same size and the same start.
pub open spec fn alike(
    files: Seq<SizedFile>,
    quick: Seq<Option<Vec<u8>>>,
    i: int,
    j: int,
) -> bool {
    files[i].bytes == files[j].bytes && same_digest(quick[i], quick[j])
}

/// Whether the files `i` and `j` have the same size, the same start and the same contents,
/// as far as their digests tell.
pub open spec fn identical(
    files: Seq<SizedFile>,
    quick: Seq<Option<Vec<u8>>>,
    full: Seq<Option<Vec<u8>>>,
    i: int,
    j: int,
) -> bool {
    alike(files, quick, i, j) && same_digest(full[i], full[j])
}

/// Whether the start of a file has to be read: another file has its size.
pub open spec fn needs_quick(files: Seq<SizedFile>, i: int) -> bool {
    exists|j: int|
        0 <= j < files.len() && j != i && (#[trigger] files[j]).bytes == files[i].bytes
}

/// Whether all of a file has to be read: another file has its size and its start.
pub open spec fn needs_full(
    files: Seq<SizedFile>,
    quick: Seq<Option<Vec<u8>>>,
    i: int,
) -> bool {
    exists|j: int| 0 <= j < files.len() && j != i && #[trigger] alike(files, quick, i, j)
}

/// Which files have to be read at the start, since another has the same size.
pub fn quick_candidates(files: &Vec<SizedFile>) -> (r: Vec<bool>)
    ensures
        r@.len() == files@.len(),
        forall|i: int| 0 <= i < r@.len() ==> #[trigger] r@[i] == needs_quick(files@, i),
{
    let mut r: Vec<bool> = Vec::new();
    let mut i: usize = 0;
    while i < files.len()
        invariant
            i <= files@.len(),
            r@.len() == i,
            forall|k: int| 0 <= k < i ==> #[trigger] r@[k] == needs_quick(files@, k),
        decreases files@.len() - i,
    {
        let mut found = false;
        let mut j: usize = 0;
        while j < files.len()
            invariant
                j <= files@.len(),
                i < files@.len(),
                found == exists|k: int|
                    0 <= k < j && k != i && (#[trigger] files@[k]).bytes == files@[i as int].bytes,
            decreases files@.len() - j,
        {
            if j != i && files[j].bytes == files[i].bytes {
                assert(files@[j as int].bytes == files@[i as int].bytes);
                found = true;
            }
            j += 1;
        }
        r.push(found);
        i += 1;
    }
    r
}

/// Which files have to be read whole, since another has the same size and start.
pub fn full_candidates(files: &Vec<SizedFile>, quick: &Vec<Option<Vec<u8>>>) -> (r: Vec<bool>)
    requires
        quick@.len() == files@.len(),
    ensures
        r@.len() == files@.len(),
        forall|i: int| 0 <= i < r@.len() ==> #[trigger] r@[i] == needs_full(files@, quick@, i),
{
    let mut r: Vec<bool> = Vec::new();
    let mut i: usize = 0;
    while i < files.len()
        invariant
            i <= files@.len(),
            quick@.len() == files@.len(),
            r@.len() == i,
            forall|k: int| 0 <= k < i ==> #[trigger] r@[k] == needs_full(files@, quick@, k),
        decreases files@.len() - i,
    {
        let mut found = false;
        let mut j: usize = 0;
        while j < files.len()
            invariant
                j <= files@.len(),
                i < files@.len(),
                quick@.len() == files@.len(),
                found == exists|k: int|
                    0 <= k < j && k != i && #[trigger] alike(files@, quick@, i as int, k),
            decreases files@.len() - j,
        {
            if j != i && files[i].bytes == files[j].bytes && is_same_digest(&quick[i], &quick[j]) {
                assert(alike(files@, quick@, i as int, j as int));
                found = true;
            }
            j += 1;
        }
        r.push(found);
        i += 1;
    }
    r
}

/// The files among the first `n` that are identical to the file `i`.
pub open spec fn copies(
    files: Seq<SizedFile>,
    quick: Seq<Option<Vec<u8>>>,
    full: Seq<Option<Vec<u8>>>,
    i: int,
    n: nat,
) -> Seq<int>
    decreases n,
{
    if n == 0 {
        Seq::empty()
    } else {
        let rest = copies(files, quick, full, i, (n - 1) as nat);
        if identical(files, quick, full, i, n - 1) { rest.push(n - 1) } else { rest }
    }
}

/// What a group of duplicates says.
pub struct GroupView {
    pub bytes: u64,
    pub wasted: nat,
    pub paths: Seq<Seq<char>>,
}

impl View for DuplicateGroup {
    type V = GroupView;

    open spec fn view(&self) -> GroupView {
        GroupView { bytes: self.bytes, wasted: self.wasted as nat, paths: text::texts(self.paths@) }
    }
}

/// The group of the files `members`, all of one size: all but one copy are waste.
pub open spec fn group_of(files: Seq<SizedFile>, bytes: u64, members: Seq<int>) -> GroupView {
    GroupView {
        bytes,
        wasted: (bytes * (members.len() - 1)) as nat,
        paths: Seq::new(members.len(), |k: int| files[members[k]].path@),
    }
}

/// The groups of two or more identical files whose first file is among the first `k`.
pub open spec fn groups_of(
    files: Seq<SizedFile>,
    quick: Seq<Option<Vec<u8>>>,
    full: Seq<Option<Vec<u8>>>,
    k: nat,
) -> Seq<GroupView>
    decreases k,
{
    if k == 0 {
        Seq::empty()
    } else {
        let rest = groups_of(files, quick, full, (k - 1) as nat);
        let g = copies(files, quick, full, k - 1, files.len());
        if g.len() >= 2 && g[0] == k - 1 {
            rest.push(group_of(files, files[k - 1].bytes, g))
        } else {
            rest
        }
    }
}

/// Biggest waste first.
pub open spec fn more_waste() -> spec_fn(GroupView, GroupView) -> bool {
    |a: GroupView, b: GroupView| a.wasted > b.wasted
}

/// The bytes of a file.
pub open spec fn file_bytes() -> spec_fn(SizedFile) -> nat {
    |f: SizedFile| f.bytes as nat
}

fn wastes_more(a: &DuplicateGroup, b: &DuplicateGroup) -> (r: bool)
    ensures
        r == (a.wasted > b.wasted),
{
    a.wasted > b.wasted
}

pub(crate) proof fn lemma_copies(
    files: Seq<SizedFile>,
    quick: Seq<Option<Vec<u8>>>,
    full: Seq<Option<Vec<u8>>>,
    i: int,
    n: nat,
)
    requires
        n <= files.len(),
    ensures
        ({
            let g = copies(files, quick, full, i, n);
            &&& forall|a: int|
                0 <= a < g.len() ==> 0 <= #[trigger] g[a] < n && identical(
                    files,
                    quick,
                    full,
                    i,
                    g[a],
                )
            &&& forall|a: int, b: int| 0 <= a < b < g.len() ==> #[trigger] g[a] < #[trigger] g[b]
            &&& forall|j: int|
                0 <= j < n && #[trigger] identical(files, quick, full, i, j) ==> g.contains(j)
            &&& files[i].bytes * g.len() <= order::sum(files.take(n as int), file_bytes())
        }),
    decreases n,
{
    if n > 0 {
        let m = (n - 1) as nat;
        lemma_copies(files, quick, full, i, m);
        let rest = copies(files, quick, full, i, m);
        let g = copies(files, quick, full, i, n);
        order::lemma_sum_step(files, n - 1, file_bytes());
        if identical(files, quick, full, i, n - 1) {
            assert(files[i].bytes * g.len() == files[i].bytes * rest.len() + files[i].bytes)
                by (nonlinear_arith)
                requires
                    g.len() == rest.len() + 1,
            ;
            assert forall|j: int|
                0 <= j < n && #[trigger] identical(files, quick, full, i, j) implies g.contains(
                j,
            ) by {
                if j < n - 1 {
                    let a = choose|a: int| 0 <= a < rest.len() && rest[a] == j;
                    assert(g[a] == j);
                } else {
                    assert(g[g.len() - 1] == j);
                }
            }
        }
    }
}

/// Byte-for-byte duplicate files, biggest waste first: groups of at least two files of the
/// same size whose first digest and full digest are known and the same. A digest may be left
/// out where no other file makes it necessary.
pub fn find_duplicates(
    files: &Vec<SizedFile>,
    quick: &Vec<Option<Vec<u8>>>,
    full: &Vec<Option<Vec<u8>>>,
) -> (r: Vec<DuplicateGroup>)
    requires
        quick@.len() == files@.len(),
        full@.len() == files@.len(),
        order::sum(files@, file_bytes()) <= u64::MAX,
    ensures
        order::views(r@) == order::ordered(
            groups_of(files@, quick@, full@, files@.len()),
            more_waste(),
        ),
{
    let mut groups: Vec<DuplicateGroup> = Vec::new();
    let mut i: usize = 0;
    assert(order::views(groups@) =~= Seq::<GroupView>::empty());
    let n = files.len();
    while i < n
        invariant
            i <= n,
            n == files@.len(),
            quick@.len() == files@.len(),
            full@.len() == files@.len(),
            order::sum(files@, file_bytes()) <= u64::MAX,
            order::views(groups@) == groups_of(files@, quick@, full@, i as nat),
        decreases n - i,
    {
        let ghost g = copies(files@, quick@, full@, i as int, n as nat);
        let mut members: Vec<usize> = Vec::new();
        let mut j: usize = 0;
        while j < n
            invariant
                j <= n,
                i < n,
                n == files@.len(),
                quick@.len() == files@.len(),
                full@.len() == files@.len(),
                members@.len() == copies(files@, quick@, full@, i as int, j as nat).len(),
                forall|k: int|
                    0 <= k < members@.len() ==> #[trigger] members@[k] == copies(
                        files@,
                        quick@,
                        full@,
                        i as int,
                        j as nat,
                    )[k],
                forall|k: int| 0 <= k < members@.len() ==> #[trigger] members@[k] < n,
            decreases n - j,
        {
            if files[i].bytes == files[j].bytes && is_same_digest(&quick[i], &quick[j])
                && is_same_digest(&full[i], &full[j]) {
                members.push(j);
            }
            j += 1;
        }
        if members.len() >= 2 && members[0] == i {
            let bytes = files[i].bytes;
            let extra = (members.len() - 1) as u64;
            let mut paths: Vec<String> = Vec::new();
            let mut k: usize = 0;
            let ghost wanted = group_of(files@, bytes, g);
            assert(text::texts(paths@) =~= wanted.paths.take(0));
            while k < members.len()
                invariant
                    k <= members@.len(),
                    members@.len() == g.len(),
                    n == files@.len(),
                    forall|k: int| 0 <= k < members@.len() ==> #[trigger] members@[k] == g[k],
                    forall|k: int| 0 <= k < members@.len() ==> #[trigger] members@[k] < n,
                    wanted == group_of(files@, bytes, g),
                    text::texts(paths@) == wanted.paths.take(k as int),
                decreases members@.len() - k,
            {
                let p = files[members[k]].path.clone();
                proof {
                    text::lemma_texts_push(paths@, p);
                    assert(wanted.paths.take(k as int).push(p@) =~= wanted.paths.take(k + 1));
                }
                paths.push(p);
                k += 1;
            }
            proof {
                assert(wanted.paths.take(members@.len() as int) =~= wanted.paths);
                lemma_copies(files@, quick@, full@, i as int, n as nat);
                assert(files@.take(n as int) =~= files@);
                assert(bytes * extra <= bytes * g.len()) by (nonlinear_arith)
                    requires
                        extra == g.len() - 1,
                        bytes >= 0,
                ;
            }
            let group = DuplicateGroup { bytes, wasted: bytes * extra, paths };
            proof {
                order::lemma_views_push(groups@, group);
            }
            groups.push(group);
        }
        i += 1;
    }
    sort_by_view(groups, wastes_more, Ghost(more_waste()))
}

/// Identity of files is symmetric.
pub proof fn identity_is_symmetric(
    files: Seq<SizedFile>,
    quick: Seq<Option<Vec<u8>>>,
    full: Seq<Option<Vec<u8>>>,
    i: int,
    j: int,
)
    ensures
        identical(files, quick, full, i, j) == identical(files, quick, full, j, i),
{
}

/// Every group holds at least two files, all of one size with equal digests, and wastes all
/// copies but one.
pub proof fn groups_hold_only_identical_files(
    files: Seq<SizedFile>,
    quick: Seq<Option<Vec<u8>>>,
    full: Seq<Option<Vec<u8>>>,
    k: nat,
    g: int,
)
    requires
        k <= files.len(),
        0 <= g < groups_of(files, quick, full, k).len(),
    ensures
        exists|members: Seq<int>| #[trigger]
            is_group(files, quick, full, groups_of(files, quick, full, k)[g], members),
    decreases k,
{
    let rest = groups_of(files, quick, full, (k - 1) as nat);
    if g < rest.len() {
        groups_hold_only_identical_files(files, quick, full, (k - 1) as nat, g);
        let members = choose|members: Seq<int>| #[trigger]
            is_group(files, quick, full, rest[g], members);
        assert(groups_of(files, quick, full, k)[g] == rest[g]);
        assert(is_group(files, quick, full, groups_of(files, quick, full, k)[g], members));
    } else {
        let members = copies(files, quick, full, k - 1, files.len());
        lemma_copies(files, quick, full, k - 1, files.len());
        assert(is_group(files, quick, full, groups_of(files, quick, full, k)[g], members));
    }
}

/// Whether a group is made of these files: two or more, pairwise identical.
pub open spec fn is_group(
    files: Seq<SizedFile>,
    quick: Seq<Option<Vec<u8>>>,
    full: Seq<Option<Vec<u8>>>,
    group: GroupView,
    members: Seq<int>,
) -> bool {
    &&& members.len() >= 2
    &&& group.wasted == group.bytes * (members.len() - 1)
    &&& group.paths.len() == members.len()
    &&& forall|a: int|
        0 <= a < members.len() ==> {
            &&& 0 <= #[trigger] members[a] < files.len()
            &&& files[members[a]].bytes == group.bytes
            &&& group.paths[a] == files[members[a]].path@
        }
    &&& forall|a: int, b: int|
        0 <= a < b < members.len() ==> #[trigger] members[a] < #[trigger] members[b] && identical(
            files,
            quick,
            full,
            members[a],
            members[b],
        )
}

pub(crate) proof fn lemma_copies_of_copy(
    files: Seq<SizedFile>,
    quick: Seq<Option<Vec<u8>>>,
    full: Seq<Option<Vec<u8>>>,
    i: int,
    f: int,
    n: nat,
)
    requires
        identical(files, quick, full, i, f),
    ensures
        copies(files, quick, full, i, n) == copies(files, quick, full, f, n),
    decreases n,
{
    if n > 0 {
        lemma_copies_of_copy(files, quick, full, i, f, (n - 1) as nat);
    }
}

proof fn lemma_group_stays(
    files: Seq<SizedFile>,
    quick: Seq<Option<Vec<u8>>>,
    full: Seq<Option<Vec<u8>>>,
    f: nat,
    k: nat,
)
    requires
        f < k,
        ({
            let g = copies(files, quick, full, f as int, files.len());
            g.len() >= 2 && g[0] == f
        }),
    ensures
        groups_of(files, quick, full, k).contains(
            group_of(
                files,
                files[f as int].bytes,
                copies(files, quick, full, f as int, files.len()),
            ),
        ),
    decreases k,
{
    let wanted = group_of(
        files,
        files[f as int].bytes,
        copies(files, quick, full, f as int, files.len()),
    );
    let now = groups_of(files, quick, full, k);
    if f == k - 1 {
        assert(now[now.len() - 1] == wanted);
    } else {
        lemma_group_stays(files, quick, full, f, (k - 1) as nat);
        let rest = groups_of(files, quick, full, (k - 1) as nat);
        let a = choose|a: int| 0 <= a < rest.len() && rest[a] == wanted;
        assert(now[a] == wanted);
    }
}

/// No duplicate is missed: two identical files stand together in one group.
pub proof fn identical_files_share_a_group(
    files: Seq<SizedFile>,
    quick: Seq<Option<Vec<u8>>>,
    full: Seq<Option<Vec<u8>>>,
    i: int,
    j: int,
)
    requires
        0 <= i < files.len(),
        0 <= j < files.len(),
        i != j,
        identical(files, quick, full, i, j),
    ensures
        ({
            let members = copies(files, quick, full, i, files.len());
            &&& members.contains(i)
            &&& members.contains(j)
            &&& groups_of(files, quick, full, files.len()).contains(
                group_of(files, files[i].bytes, members),
            )
        }),
{
    let n = files.len();
    let members = copies(files, quick, full, i, n);
    lemma_copies(files, quick, full, i, n);
    assert(identical(files, quick, full, i, i));
    let a = choose|a: int| 0 <= a < members.len() && members[a] == i;
    let b = choose|b: int| 0 <= b < members.len() && members[b] == j;
    assert(members.len() >= 2);
    let f = members[0];
    assert(identical(files, quick, full, i, f));
    lemma_copies_of_copy(files, quick, full, i, f, n);
    lemma_group_stays(files, quick, full, f as nat, n);
}

proof fn lemma_few_copies(
    files: Seq<SizedFile>,
    quick: Seq<Option<Vec<u8>>>,
    full: Seq<Option<Vec<u8>>>,
    i: int,
    n: nat,
)
    requires
        n <= files.len(),
        0 <= i < files.len(),
        !needs_full(files, quick, i),
    ensures
        copies(files, quick, full, i, n).len() <= 1,
{
    lemma_copies(files, quick, full, i, n);
    let g = copies(files, quick, full, i, n);
    if g.len() >= 2 {
        assert(g[0] < g[1]);
        let a = if g[0] == i { g[1] } else { g[0] };
        assert(alike(files, quick, i, a));
    }
}

proof fn lemma_same_copies(
    files: Seq<SizedFile>,
    quick: Seq<Option<Vec<u8>>>,
    full: Seq<Option<Vec<u8>>>,
    other: Seq<Option<Vec<u8>>>,
    i: int,
    n: nat,
)
    requires
        n <= files.len(),
        0 <= i < files.len(),
        needs_full(files, quick, i),
        forall|j: int|
            0 <= j < files.len() && #[trigger] needs_full(files, quick, j) ==> full[j] == other[j],
    ensures
        copies(files, quick, full, i, n) == copies(files, quick, other, i, n),
    decreases n,
{
    if n > 0 {
        lemma_same_copies(files, quick, full, other, i, (n - 1) as nat);
        let j = n - 1;
        if j != i && alike(files, quick, i, j) {
            assert(alike(files, quick, j, i));
            assert(needs_full(files, quick, j));
        }
    }
}

/// Reading in stages loses nothing: digests of files that no other file makes necessary do
/// not change the groups.
pub proof fn unneeded_digests_change_nothing(
    files: Seq<SizedFile>,
    quick: Seq<Option<Vec<u8>>>,
    full: Seq<Option<Vec<u8>>>,
    other: Seq<Option<Vec<u8>>>,
    k: nat,
)
    requires
        k <= files.len(),
        forall|j: int|
            0 <= j < files.len() && #[trigger] needs_full(files, quick, j) ==> full[j] == other[j],
    ensures
        groups_of(files, quick, full, k) == groups_of(files, quick, other, k),
    decreases k,
{
    if k > 0 {
        unneeded_digests_change_nothing(files, quick, full, other, (k - 1) as nat);
        if needs_full(files, quick, k - 1) {
            lemma_same_copies(files, quick, full, other, k - 1, files.len());
        } else {
            lemma_few_copies(files, quick, full, k - 1, files.len());
            lemma_few_copies(files, quick, other, k - 1, files.len());
        }
    }
}

/// Files with the same contents are always found to be identical: their sizes and digests,
/// taken from the contents, agree.
pub proof fn same_contents_are_identical(
    files: Seq<SizedFile>,
    quick: Seq<Option<Vec<u8>>>,
    full: Seq<Option<Vec<u8>>>,
    contents: Seq<Seq<u8>>,
    i: int,
    j: int,
)
    requires
        contents[i] == contents[j],
        files[i].bytes == contents[i].len(),
        files[j].bytes == contents[j].len(),
        known(quick[i]) == Some(digest(head(contents[i]))),
        known(quick[j]) == Some(digest(head(contents[j]))),
        known(full[i]) == Some(digest(contents[i])),
        known(full[j]) == Some(digest(contents[j])),
    ensures
        identical(files, quick, full, i, j),
{
}

/// A file whose size no other file has needs no digest at all.
pub proof fn full_digests_only_after_quick(
    files: Seq<SizedFile>,
    quick: Seq<Option<Vec<u8>>>,
    i: int,
)
    ensures
        needs_full(files, quick, i) ==> needs_quick(files, i),
{
    if needs_full(files, quick, i) {
        let j = choose|j: int|
            0 <= j < files.len() && j != i && #[trigger] alike(files, quick, i, j);
        assert(files[j].bytes == files[i].bytes);
    }
}

/// Large files come largest first, none is lost, and ties keep their order.
pub proof fn large_files_come_largest_first(s: Seq<LargeView>, x: LargeView)
    ensures
        order::in_order(order::ordered(s, larger_file()), larger_file()),
        order::ordered(s, larger_file()).to_multiset() == s.to_multiset(),
        order::tied_with(order::ordered(s, larger_file()), x, larger_file()) == order::tied_with(
            s,
            x,
            larger_file(),
        ),
{
    order::ordering_puts_in_order(s, larger_file());
    order::ordering_keeps_items(s, larger_file());
    order::ordering_is_stable(s, x, larger_file());
}

/// Groups of duplicates come with the biggest waste first, none is lost, and ties keep their order.
pub proof fn biggest_waste_comes_first(s: Seq<GroupView>, x: GroupView)
    ensures
        order::in_order(order::ordered(s, more_waste()), more_waste()),
        order::ordered(s, more_waste()).to_multiset() == s.to_multiset(),
        order::tied_with(order::ordered(s, more_waste()), x, more_waste()) == order::tied_with(
            s,
            x,
            more_waste(),
        ),
{
    order::ordering_puts_in_order(s, more_waste());
    order::ordering_keeps_items(s, more_waste());
    order::ordering_is_stable(s, x, more_waste());
}

/// Every collected file reaches the minimum.
pub proof fn collected_files_reach_the_minimum(at: Seq<char>, node: Node, min: u64, i: int)
    requires
        0 <= i < files_from(at, node, min).len(),
    ensures
        files_from(at, node, min)[i].1 >= min,
    decreases node,
{
    match node {
        Node::Dir(entries) => {
            lemma_collected(at, entries@, min, i);
        },
        _ => {},
    }
}

proof fn lemma_collected(at: Seq<char>, entries: Seq<Entry>, min: u64, i: int)
    requires
        0 <= i < files_among(at, entries, min).len(),
    ensures
        files_among(at, entries, min)[i].1 >= min,
    decreases entries,
{
    if entries.len() > 0 {
        let rest = files_among(at, entries.drop_last(), min);
        if i < rest.len() {
            lemma_collected(at, entries.drop_last(), min, i);
        } else {
            let e = entries[entries.len() - 1];
            if !(e.node is File) {
                collected_files_reach_the_minimum(
                    path::joined_path(at, e.name@),
                    e.node,
                    min,
                    i - rest.len(),
                );
            }
        }
    }
}

} // verus!
