//! Sizes, trees and walks, by the chains of entries that lead down from a node.

use vstd::prelude::*;

use crate::files;
use crate::laws::ordering::{largest_first, ordered_by_key_is_largest_first};
use crate::order;
use crate::path;
use crate::report::TreeNode;
use crate::scan;
use crate::scan::{Entry, Node, TreeView};

verus! {

/// What a chain of entries leads to: at each step, the entry at that place.
pub open spec fn down(node: Node, steps: Seq<int>) -> Option<Node>
    decreases steps.len(),
{
    if steps.len() == 0 {
        Some(node)
    } else {
        match node {
            Node::Dir(entries) => if 0 <= steps[0] < entries@.len() {
                down(entries@[steps[0]].node, steps.skip(1))
            } else {
                None
            },
            _ => None,
        }
    }
}

/// The names along a chain of entries.
pub open spec fn names_down(node: Node, steps: Seq<int>) -> Seq<Seq<char>>
    decreases steps.len(),
{
    if steps.len() == 0 {
        Seq::empty()
    } else {
        match node {
            Node::Dir(entries) => seq![entries@[steps[0]].name@] + names_down(
                entries@[steps[0]].node,
                steps.skip(1),
            ),
            _ => Seq::empty(),
        }
    }
}

/// The path at the end of a chain of entries from the directory `at`.
pub open spec fn path_down(at: Seq<char>, node: Node, steps: Seq<int>) -> Seq<char>
    decreases steps.len(),
{
    if steps.len() == 0 {
        at
    } else {
        match node {
            Node::Dir(entries) => path_down(
                path::joined_path(at, entries@[steps[0]].name@),
                entries@[steps[0]].node,
                steps.skip(1),
            ),
            _ => at,
        }
    }
}

/// Whether a tree has a node of so many bytes at the end of a chain of names.
pub open spec fn shows(t: TreeView, names: Seq<Seq<char>>, bytes: nat) -> bool
    decreases names.len(),
{
    if names.len() == 0 {
        t.bytes == bytes
    } else {
        exists|i: int|
            0 <= i < t.children.len() && (#[trigger] t.children[i]).name == names[0] && shows(
                t.children[i],
                names.skip(1),
                bytes,
            )
    }
}

/// How many levels of nodes a tree has below its top.
pub open spec fn no_deeper(t: TreeView, depth: nat) -> bool
    decreases depth,
{
    forall|i: int|
        0 <= i < t.children.len() ==> depth > 0 && no_deeper(
            #[trigger] t.children[i],
            (depth - 1) as nat,
        )
}

/// A file is as large as its length, and what is neither file nor directory is nothing. A
/// directory grows by an entry exactly by the size of that entry, and an empty one is nothing.
pub proof fn sizes_add_up(front: Vec<Entry>, all: Vec<Entry>, e: Entry, len: u64)
    requires
        all@ == front@.push(e),
    ensures
        scan::bytes_of(Node::File(len)) == len,
        scan::bytes_of(Node::Other) == 0,
        front@.len() == 0 ==> scan::bytes_of(Node::Dir(front)) == 0,
        scan::bytes_of(Node::Dir(all)) == scan::bytes_of(Node::Dir(front)) + scan::bytes_of(e.node),
{
    assert(all@.drop_last() =~= front@);
    assert(all@[all@.len() - 1] == e);
}

/// Everything that a chain of entries leads to is part of the size at its top.
pub proof fn what_is_reached_is_counted(node: Node, steps: Seq<int>)
    requires
        down(node, steps) is Some,
    ensures
        scan::bytes_of(down(node, steps).unwrap()) <= scan::bytes_of(node),
    decreases steps.len(),
{
    if steps.len() > 0 {
        match node {
            Node::Dir(entries) => {
                what_is_reached_is_counted(entries@[steps[0]].node, steps.skip(1));
                scan::lemma_entry_bytes(entries@, steps[0]);
            },
            _ => {},
        }
    }
}

/// The count of matching files grows with an entry by one where the entry is a file whose name
/// a usable pattern matches, and by the count of the entry where it is a directory.
pub proof fn matches_add_up(front: Vec<Entry>, all: Vec<Entry>, e: Entry, pattern: Seq<char>)
    requires
        all@ == front@.push(e),
    ensures
        scan::matching(Node::Dir(all), pattern) == scan::matching(Node::Dir(front), pattern) + (
        match e.node {
            Node::File(_) => if scan::pattern_valid(pattern) && scan::pattern_matches(
                pattern,
                e.name@,
            ) {
                1nat
            } else {
                0
            },
            Node::Dir(_) => scan::matching(e.node, pattern),
            Node::Other => 0,
        }),
        front@.len() == 0 ==> scan::matching(Node::Dir(front), pattern) == 0,
{
    assert(all@.drop_last() =~= front@);
    assert(all@[all@.len() - 1] == e);
    assert(scan::matching(Node::Dir(all), pattern) == scan::matching_all(all@, pattern));
    assert(scan::matching(Node::Dir(front), pattern) == scan::matching_all(front@, pattern));
    assert(e.node is Other ==> scan::matching(e.node, pattern) == 0);
}

/// The children of a directory are its entries, each with its name, the path of that name in
/// the directory, and its size.
pub proof fn children_are_the_entries(root: Seq<char>, entries: Seq<Entry>, i: int)
    requires
        0 <= i < entries.len(),
    ensures
        scan::children_of(root, entries).len() == entries.len(),
        scan::children_of(root, entries)[i].name == entries[i].name@,
        scan::children_of(root, entries)[i].path == path::joined_path(root, entries[i].name@),
        scan::children_of(root, entries)[i].bytes == scan::bytes_of(entries[i].node),
{
}

proof fn lemma_trees(entries: Seq<Entry>, depth: nat)
    ensures
        scan::trees_of(entries, depth) =~= Seq::new(
            entries.len(),
            |i: int| scan::tree_of(entries[i].name@, entries[i].node, depth),
        ),
    decreases entries.len(),
{
    if entries.len() > 0 {
        lemma_trees(entries.drop_last(), depth);
    }
}

/// A tree has the name and the size of its node. One level deeper, the children of a directory
/// are exactly the trees of all its entries, largest first; without a level left, and for what
/// is no directory, there are none.
pub proof fn a_tree_shows_all_entries(name: Seq<char>, entries: Vec<Entry>, depth: nat, len: u64)
    ensures
        ({
            let t = scan::tree_of(name, Node::Dir(entries), depth + 1);
            &&& t.name == name
            &&& t.bytes == scan::bytes_of(Node::Dir(entries))
            &&& largest_first(
                t.children,
                Seq::new(
                    entries@.len(),
                    |i: int| scan::tree_of(entries@[i].name@, entries@[i].node, depth),
                ),
                |c: TreeView| c.bytes,
            )
        }),
        ({
            let t = scan::tree_of(name, Node::Dir(entries), 0);
            t.name == name && t.bytes == scan::bytes_of(Node::Dir(entries)) && t.children.len() == 0
        }),
        ({
            let t = scan::tree_of(name, Node::File(len), depth);
            t.name == name && t.bytes == len && t.children.len() == 0
        }),
        ({
            let t = scan::tree_of(name, Node::Other, depth);
            t.name == name && t.bytes == 0 && t.children.len() == 0
        }),
{
    lemma_trees(entries@, depth);
    ordered_by_key_is_largest_first(
        scan::trees_of(entries@, depth),
        scan::larger_tree(),
        |c: TreeView| c.bytes,
    );
}

/// What a tree node says is its name, its bytes, and what its children say, in their order.
pub proof fn tree_views_leave_nothing_out(t: TreeNode, i: int)
    ensures
        scan::tree_view(t).name == t.name@,
        scan::tree_view(t).bytes == t.bytes,
        scan::tree_view(t).children.len() == t.children@.len(),
        0 <= i < t.children@.len() ==> scan::tree_view(t).children[i] == scan::tree_view(
            t.children@[i],
        ),
{
    lemma_tree_views(t.children@);
}

proof fn lemma_tree_views(s: Seq<TreeNode>)
    ensures
        scan::tree_views(s) =~= s.map_values(|t: TreeNode| scan::tree_view(t)),
    decreases s.len(),
{
    if s.len() > 0 {
        lemma_tree_views(s.drop_last());
    }
}

/// A size tree to a depth shows every entry that lies at most so many names below its top,
/// with its size: whatever a chain of that many entries leads to is in the tree.
pub proof fn entries_down_to_the_depth_are_shown(
    name: Seq<char>,
    node: Node,
    depth: nat,
    steps: Seq<int>,
)
    requires
        steps.len() <= depth,
        down(node, steps) is Some,
    ensures
        shows(
            scan::tree_of(name, node, depth),
            names_down(node, steps),
            scan::bytes_of(down(node, steps).unwrap()),
        ),
    decreases steps.len(),
{
    let t = scan::tree_of(name, node, depth);
    if steps.len() > 0 {
        match node {
            Node::Dir(entries) => {
                let k = steps[0];
                let e = entries@[k];
                let below = (depth - 1) as nat;
                entries_down_to_the_depth_are_shown(e.name@, e.node, below, steps.skip(1));
                lemma_trees(entries@, below);
                let child = scan::tree_of(e.name@, e.node, below);
                let all = scan::trees_of(entries@, below);
                assert(all[k] == child);
                order::lemma_ordered_contains(all, child, scan::larger_tree());
                let i = choose|i: int| 0 <= i < t.children.len() && t.children[i] == child;
                let names = names_down(node, steps);
                assert(names[0] == e.name@);
                assert(names.skip(1) =~= names_down(e.node, steps.skip(1)));
                assert(t.children[i].name == names[0]);
            },
            _ => {},
        }
    }
}

/// A size tree goes no deeper than it was asked to.
pub proof fn trees_stop_at_the_depth(name: Seq<char>, node: Node, depth: nat)
    ensures
        no_deeper(scan::tree_of(name, node, depth), depth),
    decreases depth,
{
    let t = scan::tree_of(name, node, depth);
    match node {
        Node::Dir(entries) => {
            if depth > 0 {
                let below = (depth - 1) as nat;
                let all = scan::trees_of(entries@, below);
                lemma_trees(entries@, below);
                assert forall|i: int| 0 <= i < t.children.len() implies no_deeper(
                    #[trigger] t.children[i],
                    below,
                ) by {
                    order::lemma_ordered_contains(all, t.children[i], scan::larger_tree());
                    assert(t.children.contains(t.children[i]));
                    let k = choose|k: int| 0 <= k < all.len() && all[k] == t.children[i];
                    trees_stop_at_the_depth(entries@[k].name@, entries@[k].node, below);
                }
            }
        },
        _ => {},
    }
}

/// Collecting goes on with an entry behind those before it: a file counts where it reaches the
/// minimum, a directory of whatever name adds what is collected in it, anything else nothing.
pub proof fn collecting_adds_up(
    at: Seq<char>,
    front: Vec<Entry>,
    all: Vec<Entry>,
    e: Entry,
    min: u64,
)
    requires
        all@ == front@.push(e),
    ensures
        files::files_from(at, Node::Dir(all), min) == files::files_from(at, Node::Dir(front), min)
            + (match e.node {
            Node::File(size) => if size >= min {
                seq![(path::joined_path(at, e.name@), size)]
            } else {
                Seq::empty()
            },
            Node::Dir(_) => files::files_from(path::joined_path(at, e.name@), e.node, min),
            Node::Other => Seq::empty(),
        }),
        front@.len() == 0 ==> files::files_from(at, Node::Dir(front), min).len() == 0,
{
    assert(all@.drop_last() =~= front@);
    assert(all@[all@.len() - 1] == e);
    assert(files::files_from(at, Node::Dir(all), min) == files::files_among(at, all@, min));
    assert(files::files_from(at, Node::Dir(front), min) == files::files_among(at, front@, min));
    let here = path::joined_path(at, e.name@);
    assert(e.node is Other ==> files::files_from(here, e.node, min) =~= Seq::empty());
}

proof fn lemma_among(
    at: Seq<char>,
    entries: Seq<Entry>,
    min: u64,
    k: int,
    x: (Seq<char>, u64),
)
    requires
        0 <= k < entries.len(),
        ({
            let here = path::joined_path(at, entries[k].name@);
            match entries[k].node {
                Node::File(size) => size >= min && x == (here, size),
                _ => files::files_from(here, entries[k].node, min).contains(x),
            }
        }),
    ensures
        files::files_among(at, entries, min).contains(x),
    decreases entries.len(),
{
    let all = files::files_among(at, entries, min);
    let rest = files::files_among(at, entries.drop_last(), min);
    if k < entries.len() - 1 {
        lemma_among(at, entries.drop_last(), min, k, x);
        let i = choose|i: int| 0 <= i < rest.len() && rest[i] == x;
        assert(all[i] == x);
    } else {
        let here = path::joined_path(at, entries[k].name@);
        match entries[k].node {
            Node::File(size) => {
                assert(all[rest.len() as int] == x);
            },
            _ => {
                let more = files::files_from(here, entries[k].node, min);
                let i = choose|i: int| 0 <= i < more.len() && more[i] == x;
                assert(all[rest.len() + i] == x);
            },
        }
    }
}

/// No file is missed: every file that a chain of entries leads to, through directories of
/// whatever name, is collected with its path and its size where it reaches the minimum.
pub proof fn every_large_file_is_collected(
    at: Seq<char>,
    node: Node,
    min: u64,
    steps: Seq<int>,
    size: u64,
)
    requires
        steps.len() > 0,
        down(node, steps) == Some(Node::File(size)),
        size >= min,
    ensures
        files::files_from(at, node, min).contains((path_down(at, node, steps), size)),
    decreases steps.len(),
{
    match node {
        Node::Dir(entries) => {
            let k = steps[0];
            let e = entries@[k];
            let here = path::joined_path(at, e.name@);
            if steps.len() > 1 {
                every_large_file_is_collected(here, e.node, min, steps.skip(1), size);
            } else {
                assert(steps.skip(1).len() == 0);
                assert(down(e.node, steps.skip(1)) == Some(e.node));
                assert(path_down(here, e.node, steps.skip(1)) == here);
            }
            assert(path_down(at, node, steps) == path_down(here, e.node, steps.skip(1)));
            lemma_among(at, entries@, min, k, (path_down(at, node, steps), size));
        },
        _ => {},
    }
}

proof fn lemma_entry_of(
    at: Seq<char>,
    entries: Seq<Entry>,
    min: u64,
    x: (Seq<char>, u64),
) -> (k: int)
    requires
        files::files_among(at, entries, min).contains(x),
    ensures
        0 <= k < entries.len(),
        ({
            let here = path::joined_path(at, entries[k].name@);
            match entries[k].node {
                Node::File(size) => size >= min && x == (here, size),
                _ => files::files_from(here, entries[k].node, min).contains(x),
            }
        }),
    decreases entries.len(),
{
    let all = files::files_among(at, entries, min);
    let rest = files::files_among(at, entries.drop_last(), min);
    let i = choose|i: int| 0 <= i < all.len() && all[i] == x;
    if i < rest.len() {
        assert(rest[i] == x);
        lemma_entry_of(at, entries.drop_last(), min, x)
    } else {
        let e = entries[entries.len() - 1];
        let here = path::joined_path(at, e.name@);
        if !(e.node is File) {
            let more = files::files_from(here, e.node, min);
            assert(more[i - rest.len()] == x);
        }
        entries.len() - 1
    }
}

/// Nothing else is collected: what is collected is a file that a chain of entries leads to, at
/// its path, of its size, and reaches the minimum.
pub proof fn only_large_files_are_collected(
    at: Seq<char>,
    node: Node,
    min: u64,
    x: (Seq<char>, u64),
) -> (steps: Seq<int>)
    requires
        files::files_from(at, node, min).contains(x),
    ensures
        steps.len() > 0,
        down(node, steps) == Some(Node::File(x.1)),
        path_down(at, node, steps) == x.0,
        x.1 >= min,
    decreases node,
{
    match node {
        Node::Dir(entries) => {
            let k = lemma_entry_of(at, entries@, min, x);
            let e = entries@[k];
            let here = path::joined_path(at, e.name@);
            match e.node {
                Node::File(size) => {
                    let steps = seq![k];
                    assert(steps.skip(1) =~= Seq::<int>::empty());
                    assert(down(e.node, steps.skip(1)) == Some(e.node));
                    assert(path_down(here, e.node, steps.skip(1)) == here);
                    assert(path_down(at, node, steps) == here);
                    steps
                },
                _ => {
                    let rest = only_large_files_are_collected(here, e.node, min, x);
                    let steps = seq![k] + rest;
                    assert(steps.skip(1) =~= rest);
                    assert(path_down(at, node, steps) == path_down(here, e.node, rest));
                    steps
                },
            }
        },
        _ => seq![0],
    }
}

/// Days are whole: an age of so many days lies between that many days and one more. The path
/// and the size of a file are kept with its ages.
pub proof fn ages_are_whole_days(
    found: Seq<(Seq<char>, u64)>,
    ages: Seq<files::Ages>,
    i: int,
)
    requires
        0 <= i < found.len(),
        ages.len() == found.len(),
    ensures
        ({
            let f = files::aged(found, ages)[i];
            &&& files::aged(found, ages).len() == found.len()
            &&& f.path == found[i].0
            &&& f.bytes == found[i].1
            &&& f.modified_days is Some == ages[i].modified is Some
            &&& f.accessed_days is Some == ages[i].accessed is Some
            &&& f.modified_days matches Some(d) ==> 86_400 * d <= ages[i].modified.unwrap() < 86_400
                * (d + 1)
            &&& f.accessed_days matches Some(d) ==> 86_400 * d <= ages[i].accessed.unwrap() < 86_400
                * (d + 1)
        }),
{
}

} // verus!
