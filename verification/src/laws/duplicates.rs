//! Duplicates: what a group is made of, and that none is missed.

use vstd::prelude::*;

use crate::files;
use crate::files::{GroupView, SizedFile};
use crate::laws::ordering::{largest_first, ordered_by_key_is_largest_first};
use crate::order;

verus! {

/// Whether two digests are there and hold the same bytes.
pub open spec fn agree(a: Option<Vec<u8>>, b: Option<Vec<u8>>) -> bool {
    a is Some && b is Some && a.unwrap()@ == b.unwrap()@
}

/// Whether two files have one size, and agree in the digest of their start and in that of all
/// they hold.
pub open spec fn same_file(
    all: Seq<SizedFile>,
    quick: Seq<Option<Vec<u8>>>,
    full: Seq<Option<Vec<u8>>>,
    i: int,
    j: int,
) -> bool {
    all[i].bytes == all[j].bytes && agree(quick[i], quick[j]) && agree(full[i], full[j])
}

/// Whether a group is made of these files: two or more, each once, of the size of the group,
/// named by their paths, any two of them with the same digests of all they hold; all copies
/// but one are wasted.
pub open spec fn made_of(
    all: Seq<SizedFile>,
    quick: Seq<Option<Vec<u8>>>,
    full: Seq<Option<Vec<u8>>>,
    group: GroupView,
    members: Seq<int>,
) -> bool {
    &&& members.len() >= 2
    &&& group.wasted == group.bytes * (members.len() - 1)
    &&& group.paths.len() == members.len()
    &&& forall|a: int|
        0 <= a < members.len() ==> {
            &&& 0 <= #[trigger] members[a] < all.len()
            &&& all[members[a]].bytes == group.bytes
            &&& group.paths[a] == all[members[a]].path@
        }
    &&& forall|a: int, b: int|
        0 <= a < b < members.len() ==> #[trigger] members[a] < #[trigger] members[b] && same_file(
            all,
            quick,
            full,
            members[a],
            members[b],
        )
}

/// Whether `parts` tells the files of each group: every group is made of its part, no file is
/// in two of them, and two files that are the same are in one.
pub open spec fn parts_the_files(
    all: Seq<SizedFile>,
    quick: Seq<Option<Vec<u8>>>,
    full: Seq<Option<Vec<u8>>>,
    groups: Seq<GroupView>,
    parts: Seq<Seq<int>>,
) -> bool {
    &&& parts.len() == groups.len()
    &&& forall|g: int|
        0 <= g < groups.len() ==> made_of(all, quick, full, #[trigger] groups[g], parts[g])
    &&& forall|g: int, h: int, x: int|
        0 <= g < h < parts.len() && #[trigger] parts[g].contains(x)
            ==> !#[trigger] parts[h].contains(x)
    &&& forall|i: int, j: int|
        0 <= i < all.len() && 0 <= j < all.len() && i != j && #[trigger] same_file(
            all,
            quick,
            full,
            i,
            j,
        ) ==> exists|g: int|
            0 <= g < parts.len() && (#[trigger] parts[g]).contains(i) && parts[g].contains(j)
}

spec fn parts_of(
    all: Seq<SizedFile>,
    quick: Seq<Option<Vec<u8>>>,
    full: Seq<Option<Vec<u8>>>,
    k: nat,
) -> Seq<Seq<int>>
    decreases k,
{
    if k == 0 {
        Seq::empty()
    } else {
        let rest = parts_of(all, quick, full, (k - 1) as nat);
        let g = files::copies(all, quick, full, k - 1, all.len());
        if g.len() >= 2 && g[0] == k - 1 { rest.push(g) } else { rest }
    }
}

proof fn lemma_same(
    all: Seq<SizedFile>,
    quick: Seq<Option<Vec<u8>>>,
    full: Seq<Option<Vec<u8>>>,
    i: int,
    j: int,
)
    ensures
        files::identical(all, quick, full, i, j) == same_file(all, quick, full, i, j),
{
}

proof fn lemma_parts(
    all: Seq<SizedFile>,
    quick: Seq<Option<Vec<u8>>>,
    full: Seq<Option<Vec<u8>>>,
    k: nat,
)
    requires
        k <= all.len(),
    ensures
        ({
            let parts = parts_of(all, quick, full, k);
            let groups = files::groups_of(all, quick, full, k);
            &&& parts.len() == groups.len()
            &&& forall|g: int|
                0 <= g < groups.len() ==> made_of(all, quick, full, #[trigger] groups[g], parts[g])
            &&& forall|g: int|
                0 <= g < parts.len() ==> (#[trigger] parts[g]).len() >= 2 && 0 <= parts[g][0] < k
                    && parts[g] == files::copies(all, quick, full, parts[g][0], all.len())
            &&& forall|g: int, h: int|
                0 <= g < h < parts.len() ==> (#[trigger] parts[g])[0] < (#[trigger] parts[h])[0]
        }),
    decreases k,
{
    if k > 0 {
        lemma_parts(all, quick, full, (k - 1) as nat);
        let parts = parts_of(all, quick, full, k);
        let rest = parts_of(all, quick, full, (k - 1) as nat);
        let groups = files::groups_of(all, quick, full, k);
        let before = files::groups_of(all, quick, full, (k - 1) as nat);
        let g = files::copies(all, quick, full, k - 1, all.len());
        files::lemma_copies(all, quick, full, k - 1, all.len());
        if g.len() >= 2 && g[0] == k - 1 {
            let made = groups[groups.len() - 1];
            assert forall|a: int, b: int| 0 <= a < b < g.len() implies #[trigger] g[a]
                < #[trigger] g[b] && same_file(all, quick, full, g[a], g[b]) by {
                assert(files::identical(all, quick, full, k - 1, g[a]));
                assert(files::identical(all, quick, full, k - 1, g[b]));
            }
            assert forall|a: int| 0 <= a < g.len() implies {
                &&& 0 <= #[trigger] g[a] < all.len()
                &&& all[g[a]].bytes == made.bytes
                &&& made.paths[a] == all[g[a]].path@
            } by {
                assert(files::identical(all, quick, full, k - 1, g[a]));
            }
            assert(made_of(all, quick, full, made, g));
            assert forall|x: int| 0 <= x < groups.len() implies made_of(
                all,
                quick,
                full,
                #[trigger] groups[x],
                parts[x],
            ) by {
                if x < before.len() {
                    assert(groups[x] == before[x]);
                    assert(parts[x] == rest[x]);
                }
            }
            assert forall|x: int, y: int| 0 <= x < y < parts.len() implies (
            #[trigger] parts[x])[0] < (#[trigger] parts[y])[0] by {
                assert(parts[x] == rest[x]);
                if y < rest.len() {
                    assert(parts[y] == rest[y]);
                }
            }
        }
    }
}

proof fn lemma_part_stays(
    all: Seq<SizedFile>,
    quick: Seq<Option<Vec<u8>>>,
    full: Seq<Option<Vec<u8>>>,
    f: nat,
    k: nat,
)
    requires
        f < k,
        ({
            let g = files::copies(all, quick, full, f as int, all.len());
            g.len() >= 2 && g[0] == f
        }),
    ensures
        parts_of(all, quick, full, k).contains(
            files::copies(all, quick, full, f as int, all.len()),
        ),
    decreases k,
{
    let wanted = files::copies(all, quick, full, f as int, all.len());
    let now = parts_of(all, quick, full, k);
    if f == k - 1 {
        assert(now[now.len() - 1] == wanted);
    } else {
        lemma_part_stays(all, quick, full, f, (k - 1) as nat);
        let rest = parts_of(all, quick, full, (k - 1) as nat);
        let a = choose|a: int| 0 <= a < rest.len() && rest[a] == wanted;
        assert(now[a] == wanted);
    }
}

/// The groups are the duplicates: each is made of two or more files with one size and the same
/// digests of all they hold, no file is in two, and any two files that are the same are in one.
pub proof fn groups_are_the_duplicates(
    all: Seq<SizedFile>,
    quick: Seq<Option<Vec<u8>>>,
    full: Seq<Option<Vec<u8>>>,
)
    ensures
        exists|parts: Seq<Seq<int>>| #[trigger]
            parts_the_files(
                all,
                quick,
                full,
                files::groups_of(all, quick, full, all.len()),
                parts,
            ),
{
    let n = all.len();
    let parts = parts_of(all, quick, full, n);
    let groups = files::groups_of(all, quick, full, n);
    lemma_parts(all, quick, full, n);
    assert forall|g: int, h: int, x: int|
        0 <= g < h < parts.len() && #[trigger] parts[g].contains(x)
            implies !#[trigger] parts[h].contains(x) by {
        let a = parts[g][0];
        let b = parts[h][0];
        assert(a < b);
        files::lemma_copies(all, quick, full, a, n);
        files::lemma_copies(all, quick, full, b, n);
        if parts[h].contains(x) {
            let p = choose|p: int| 0 <= p < parts[g].len() && parts[g][p] == x;
            let q = choose|q: int| 0 <= q < parts[h].len() && parts[h][q] == x;
            assert(files::identical(all, quick, full, a, parts[g][p]));
            assert(files::identical(all, quick, full, b, parts[h][q]));
            assert(files::identical(all, quick, full, b, a));
            let m = choose|m: int| 0 <= m < parts[h].len() && parts[h][m] == a;
            if m > 0 {
                assert(parts[h][0] < parts[h][m]);
            }
        }
    }
    assert forall|i: int, j: int|
        0 <= i < n && 0 <= j < n && i != j && #[trigger] same_file(
            all,
            quick,
            full,
            i,
            j,
        ) implies exists|g: int|
        0 <= g < parts.len() && (#[trigger] parts[g]).contains(i) && parts[g].contains(j) by {
        let members = files::copies(all, quick, full, i, n);
        files::lemma_copies(all, quick, full, i, n);
        assert(files::identical(all, quick, full, i, i));
        assert(files::identical(all, quick, full, i, j));
        assert(members.contains(i) && members.contains(j));
        let p = choose|p: int| 0 <= p < members.len() && members[p] == i;
        let q = choose|q: int| 0 <= q < members.len() && members[q] == j;
        let f = members[0];
        assert(files::identical(all, quick, full, i, f));
        files::lemma_copies_of_copy(all, quick, full, i, f, n);
        lemma_part_stays(all, quick, full, f as nat, n);
        let g = choose|g: int| 0 <= g < parts.len() && parts[g] == members;
        assert(parts[g].contains(i));
    }
    assert(parts_the_files(all, quick, full, groups, parts));
}

/// What is reported is those groups, with the most waste first. Any two files of a reported
/// group have digests of all they hold, whatever their size, and these are the same.
pub proof fn reported_duplicates_agree_in_full(
    all: Seq<SizedFile>,
    quick: Seq<Option<Vec<u8>>>,
    full: Seq<Option<Vec<u8>>>,
    g: int,
)
    requires
        0 <= g < order::ordered(
            files::groups_of(all, quick, full, all.len()),
            files::more_waste(),
        ).len(),
    ensures
        largest_first(
            order::ordered(files::groups_of(all, quick, full, all.len()), files::more_waste()),
            files::groups_of(all, quick, full, all.len()),
            |x: GroupView| x.wasted,
        ),
        exists|members: Seq<int>| #[trigger]
            made_of(
                all,
                quick,
                full,
                order::ordered(
                    files::groups_of(all, quick, full, all.len()),
                    files::more_waste(),
                )[g],
                members,
            ),
{
    let groups = files::groups_of(all, quick, full, all.len());
    let shown = order::ordered(groups, files::more_waste());
    ordered_by_key_is_largest_first(groups, files::more_waste(), |x: GroupView| x.wasted);
    order::lemma_ordered_contains(groups, shown[g], files::more_waste());
    assert(shown.contains(shown[g]));
    let k = choose|k: int| 0 <= k < groups.len() && groups[k] == shown[g];
    lemma_parts(all, quick, full, all.len());
    assert(made_of(all, quick, full, groups[k], parts_of(all, quick, full, all.len())[k]));
}

/// The start of a file is read exactly where another file has its size, and all of it exactly
/// where another has its size and agrees in the digest of the start.
pub proof fn digests_are_taken_where_they_decide(
    all: Seq<SizedFile>,
    quick: Seq<Option<Vec<u8>>>,
    i: int,
)
    requires
        0 <= i < all.len(),
    ensures
        files::needs_quick(all, i) <==> exists|j: int|
            0 <= j < all.len() && j != i && (#[trigger] all[j]).bytes == all[i].bytes,
        files::needs_full(all, quick, i) <==> exists|j: int|
            0 <= j < all.len() && j != i && (#[trigger] all[j]).bytes == all[i].bytes && agree(
                quick[i],
                quick[j],
            ),
{
    if files::needs_full(all, quick, i) {
        let j = choose|j: int|
            0 <= j < all.len() && j != i && #[trigger] files::alike(all, quick, i, j);
        assert(all[j].bytes == all[i].bytes && agree(quick[i], quick[j]));
    }
    if exists|j: int|
        0 <= j < all.len() && j != i && (#[trigger] all[j]).bytes == all[i].bytes && agree(
            quick[i],
            quick[j],
        ) {
        let j = choose|j: int|
            0 <= j < all.len() && j != i && (#[trigger] all[j]).bytes == all[i].bytes && agree(
                quick[i],
                quick[j],
            );
        assert(files::alike(all, quick, i, j));
    }
}

/// The first digest covers the first 16 KiB of a file, or all of a shorter one.
pub proof fn the_first_digest_covers_the_start(bytes: Seq<u8>)
    ensures
        bytes.len() <= 16_384 ==> files::head(bytes) == bytes,
        bytes.len() > 16_384 ==> files::head(bytes) == bytes.take(16_384),
{
}

} // verus!
