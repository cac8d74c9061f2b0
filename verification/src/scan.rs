//! Sizing what was read from disk.
//!
//! A directory is read into a [`Node`] first. Symlinks are never followed, so volumes are not
//! counted twice and there are no cycles. What cannot be read counts as nothing.

use vstd::prelude::*;

use crate::order;
use crate::order::{sort_by_view, sort_stably};
use crate::path;
use crate::path::join_path;
use crate::report::{ChildSize, TreeNode};

verus! {

/// What stands at a path.
pub enum Node {
    /// A regular file with its length.
    File(u64),
    /// A directory with what it holds; an unreadable one holds nothing.
    Dir(Vec<Entry>),
    /// A symlink, a device, or something that cannot be read.
    Other,
}

/// A named node of a directory.
pub struct Entry {
    pub name: String,
    pub node: Node,
}

/// The sum of the file lengths under a node.
pub open spec fn bytes_of(node: Node) -> nat
    decreases node,
{
    match node {
        Node::File(len) => len as nat,
        Node::Dir(entries) => bytes_of_all(entries@),
        Node::Other => 0,
    }
}

/// The sum of the file lengths under a list of entries.
pub open spec fn bytes_of_all(entries: Seq<Entry>) -> nat
    decreases entries,
{
    if entries.len() == 0 {
        0
    } else {
        bytes_of_all(entries.drop_last()) + bytes_of(entries[entries.len() - 1].node)
    }
}

proof fn lemma_bytes_prefix(entries: Seq<Entry>, k: int)
    requires
        0 <= k <= entries.len(),
    ensures
        bytes_of_all(entries.take(k)) <= bytes_of_all(entries),
    decreases entries.len(),
{
    if k < entries.len() {
        assert(entries.drop_last().take(k) =~= entries.take(k));
        lemma_bytes_prefix(entries.drop_last(), k);
    } else {
        assert(entries.take(k) =~= entries);
    }
}

/// The size of everything under `node`, where it fits.
pub fn checked_measure(node: &Node) -> (r: Option<u64>)
    ensures
        r == (if bytes_of(*node) <= u64::MAX { Some(bytes_of(*node) as u64) } else { None }),
    decreases node,
{
    match node {
        Node::File(len) => Some(*len),
        Node::Other => Some(0),
        Node::Dir(entries) => {
            let mut sum: u64 = 0;
            let mut i: usize = 0;
            assert(entries@.take(0) =~= Seq::<Entry>::empty());
            while i < entries.len()
                invariant
                    i <= entries@.len(),
                    *node == Node::Dir(*entries),
                    sum == bytes_of_all(entries@.take(i as int)),
                decreases entries@.len() - i,
            {
                proof {
                    assert(entries@.take(i + 1).drop_last() =~= entries@.take(i as int));
                    lemma_bytes_prefix(entries@, i + 1);
                    assert(decreases_to!(*node => node->Dir_0));
                    assert(decreases_to!(node->Dir_0 => entries@));
                    assert(decreases_to!(entries@ => entries@[i as int]));
                    assert(decreases_to!(entries@[i as int] => entries@[i as int].node));
                }
                match checked_measure(&entries[i].node) {
                    Some(b) => match sum.checked_add(b) {
                        Some(s) => {
                            sum = s;
                        },
                        None => {
                            return None;
                        },
                    },
                    None => {
                        return None;
                    },
                }
                i += 1;
            }
            assert(entries@.take(entries@.len() as int) =~= entries@);
            Some(sum)
        },
    }
}

/// Total apparent size (sum of file lengths) of everything under `node`.
pub fn measure_path(node: &Node) -> (r: u64)
    requires
        bytes_of(*node) <= u64::MAX,
    ensures
        r == bytes_of(*node),
{
    match checked_measure(node) {
        Some(b) => b,
        None => 0,
    }
}

/// What `glob::Pattern::new` says of a pattern: whether it is well formed.
pub uninterp spec fn pattern_valid(pattern: Seq<char>) -> bool;

/// What `glob::Pattern::matches` says of a well-formed pattern and a name.
pub uninterp spec fn pattern_matches(pattern: Seq<char>, name: Seq<char>) -> bool;

/// Calls `glob::Pattern::new`, of which only the success is kept.
#[verifier::external_body]
fn well_formed(pattern: &str) -> (r: bool)
    ensures
        r == pattern_valid(pattern@),
{
    glob::Pattern::new(pattern).is_ok()
}

/// Calls `glob::Pattern::matches` on a well-formed pattern; a pattern that is not matches
/// nothing.
#[verifier::external_body]
fn matches_name(pattern: &str, name: &str) -> (r: bool)
    ensures
        pattern_valid(pattern@) ==> r == pattern_matches(pattern@, name@),
        !pattern_valid(pattern@) ==> !r,
{
    match glob::Pattern::new(pattern) {
        Ok(compiled) => compiled.matches(name),
        Err(_) => false,
    }
}

/// Whether `pattern` can be used.
pub fn is_pattern(pattern: &str) -> (r: bool)
    ensures
        r == pattern_valid(pattern@),
{
    well_formed(pattern)
}

/// Files under a node.
pub open spec fn files_of(node: Node) -> nat
    decreases node,
{
    match node {
        Node::File(_) => 1,
        Node::Dir(entries) => files_of_all(entries@),
        Node::Other => 0,
    }
}

/// Files under a list of entries.
pub open spec fn files_of_all(entries: Seq<Entry>) -> nat
    decreases entries,
{
    if entries.len() == 0 {
        0
    } else {
        files_of_all(entries.drop_last()) + files_of(entries[entries.len() - 1].node)
    }
}

/// Whether a file of that name counts for `pattern`.
pub open spec fn name_counts(pattern: Seq<char>, name: Seq<char>) -> bool {
    pattern_valid(pattern) && pattern_matches(pattern, name)
}

/// The files below a directory whose names match `pattern`.
pub open spec fn matching(node: Node, pattern: Seq<char>) -> nat
    decreases node,
{
    match node {
        Node::Dir(entries) => matching_all(entries@, pattern),
        _ => 0,
    }
}

/// The files among and below a list of entries whose names match `pattern`.
pub open spec fn matching_all(entries: Seq<Entry>, pattern: Seq<char>) -> nat
    decreases entries,
{
    if entries.len() == 0 {
        0
    } else {
        let e = entries[entries.len() - 1];
        matching_all(entries.drop_last(), pattern) + (if e.node is File {
            if name_counts(pattern, e.name@) { 1nat } else { 0 }
        } else {
            matching(e.node, pattern)
        })
    }
}

proof fn lemma_matching_bound(node: Node, pattern: Seq<char>)
    ensures
        matching(node, pattern) <= files_of(node),
    decreases node,
{
    match node {
        Node::Dir(entries) => {
            lemma_matching_bound_all(entries@, pattern);
        },
        _ => {},
    }
}

proof fn lemma_matching_bound_all(entries: Seq<Entry>, pattern: Seq<char>)
    ensures
        matching_all(entries, pattern) <= files_of_all(entries),
    decreases entries,
{
    if entries.len() > 0 {
        lemma_matching_bound_all(entries.drop_last(), pattern);
        lemma_matching_bound(entries[entries.len() - 1].node, pattern);
    }
}

proof fn lemma_files_prefix(entries: Seq<Entry>, k: int)
    requires
        0 <= k <= entries.len(),
    ensures
        files_of_all(entries.take(k)) <= files_of_all(entries),
        k < entries.len() ==> files_of(entries[k].node) <= files_of_all(entries),
    decreases entries.len(),
{
    if k < entries.len() {
        if k == entries.len() - 1 {
            assert(entries.take(k) =~= entries.drop_last());
        } else {
            assert(entries.drop_last().take(k) =~= entries.take(k));
            lemma_files_prefix(entries.drop_last(), k);
        }
    } else {
        assert(entries.take(k) =~= entries);
    }
}

/// Counts the files below the directory `dir` whose file name matches `pattern` (e.g. the
/// `CFNetworkDownload_*.tmp` fragments of a download leak).
pub fn count_matching_files(dir: &Node, pattern: &str) -> (r: u64)
    requires
        files_of(*dir) <= u64::MAX,
    ensures
        r == matching(*dir, pattern@),
    decreases dir,
{
    match dir {
        Node::Dir(entries) => {
            let mut count: u64 = 0;
            let mut i: usize = 0;
            assert(entries@.take(0) =~= Seq::<Entry>::empty());
            while i < entries.len()
                invariant
                    i <= entries@.len(),
                    *dir == Node::Dir(*entries),
                    files_of_all(entries@) <= u64::MAX,
                    count == matching_all(entries@.take(i as int), pattern@),
                decreases entries@.len() - i,
            {
                let ghost now = entries@.take(i + 1);
                proof {
                    assert(now.drop_last() =~= entries@.take(i as int));
                    assert(now[now.len() - 1] == entries@[i as int]);
                    lemma_files_prefix(entries@, i + 1);
                    lemma_files_prefix(entries@, i as int);
                    lemma_matching_bound_all(now, pattern@);
                    assert(decreases_to!(*dir => dir->Dir_0));
                    assert(decreases_to!(dir->Dir_0 => entries@));
                    assert(decreases_to!(entries@ => entries@[i as int]));
                    assert(decreases_to!(entries@[i as int] => entries@[i as int].node));
                }
                match &entries[i].node {
                    Node::File(_) => {
                        if matches_name(pattern, entries[i].name.as_str()) {
                            count += 1;
                        }
                    },
                    _ => {
                        count += count_matching_files(&entries[i].node, pattern);
                    },
                }
                i += 1;
            }
            assert(entries@.take(entries@.len() as int) =~= entries@);
            count
        },
        _ => 0,
    }
}

/// What a child size says.
pub struct ChildView {
    pub name: Seq<char>,
    pub path: Seq<char>,
    pub bytes: nat,
}

impl View for ChildSize {
    type V = ChildView;

    open spec fn view(&self) -> ChildView {
        ChildView { name: self.name@, path: self.path@, bytes: self.bytes as nat }
    }
}

/// Largest first.
pub open spec fn larger_child() -> spec_fn(ChildView, ChildView) -> bool {
    |a: ChildView, b: ChildView| a.bytes > b.bytes
}

/// The entries of the directory `root` with their sizes.
pub open spec fn children_of(root: Seq<char>, entries: Seq<Entry>) -> Seq<ChildView> {
    Seq::new(
        entries.len(),
        |i: int|
            ChildView {
                name: entries[i].name@,
                path: path::joined_path(root, entries[i].name@),
                bytes: bytes_of(entries[i].node),
            },
    )
}

/// No entry is larger than all of them together.
pub proof fn lemma_entry_bytes(entries: Seq<Entry>, k: int)
    requires
        0 <= k < entries.len(),
    ensures
        bytes_of(entries[k].node) <= bytes_of_all(entries),
    decreases entries.len(),
{
    if k < entries.len() - 1 {
        lemma_entry_bytes(entries.drop_last(), k);
    }
}

/// Sizes every immediate child of the directory `root`: the total, and the children largest
/// first.
pub fn scan_children(root: &str, entries: &Vec<Entry>) -> (r: (u64, Vec<ChildSize>))
    requires
        bytes_of_all(entries@) <= u64::MAX,
    ensures
        r.0 == bytes_of_all(entries@),
        order::views(r.1@) == order::ordered(children_of(root@, entries@), larger_child()),
{
    let mut children: Vec<ChildSize> = Vec::new();
    let mut sum: u64 = 0;
    let mut i: usize = 0;
    assert(entries@.take(0) =~= Seq::<Entry>::empty());
    assert(order::views(children@) =~= children_of(root@, entries@).take(0));
    while i < entries.len()
        invariant
            i <= entries@.len(),
            bytes_of_all(entries@) <= u64::MAX,
            sum == bytes_of_all(entries@.take(i as int)),
            order::views(children@) == children_of(root@, entries@).take(i as int),
        decreases entries@.len() - i,
    {
        proof {
            assert(entries@.take(i + 1).drop_last() =~= entries@.take(i as int));
            lemma_bytes_prefix(entries@, i + 1);
            lemma_entry_bytes(entries@, i as int);
        }
        let bytes = measure_path(&entries[i].node);
        let name = entries[i].name.clone();
        let full = join_path(root, name.as_str());
        let child = ChildSize { name, path: full, bytes };
        proof {
            order::lemma_views_push(children@, child);
            assert(children_of(root@, entries@).take(i as int).push(child@) =~= children_of(
                root@,
                entries@,
            ).take(i + 1));
        }
        children.push(child);
        sum += bytes;
        i += 1;
    }
    proof {
        assert(entries@.take(entries@.len() as int) =~= entries@);
        assert(children_of(root@, entries@).take(entries@.len() as int) =~= children_of(
            root@,
            entries@,
        ));
    }
    let sorted = sort_by_view(
        children,
        child_is_larger,
        Ghost(larger_child()),
    );
    (sum, sorted)
}

/// A size tree, by its views.
pub struct TreeView {
    pub name: Seq<char>,
    pub bytes: nat,
    pub children: Seq<TreeView>,
}

/// What a tree node says.
pub open spec fn tree_view(t: TreeNode) -> TreeView
    decreases t,
{
    TreeView {
        name: t.name@,
        bytes: t.bytes as nat,
        children: tree_views(t.children@),
    }
}

/// What a list of tree nodes says.
pub open spec fn tree_views(s: Seq<TreeNode>) -> Seq<TreeView>
    decreases s,
{
    if s.len() == 0 {
        Seq::empty()
    } else {
        tree_views(s.drop_last()).push(tree_view(s[s.len() - 1]))
    }
}

/// Largest first.
pub open spec fn larger_tree() -> spec_fn(TreeView, TreeView) -> bool {
    |a: TreeView, b: TreeView| a.bytes > b.bytes
}

/// The size tree of a node down to `depth` levels, each level largest first.
pub open spec fn tree_of(name: Seq<char>, node: Node, depth: nat) -> TreeView
    decreases node,
{
    TreeView {
        name,
        bytes: bytes_of(node),
        children: match node {
            Node::Dir(entries) => if depth == 0 {
                Seq::empty()
            } else {
                order::ordered(trees_of(entries@, (depth - 1) as nat), larger_tree())
            },
            _ => Seq::empty(),
        },
    }
}

/// The size trees of a list of entries.
pub open spec fn trees_of(entries: Seq<Entry>, depth: nat) -> Seq<TreeView>
    decreases entries,
{
    if entries.len() == 0 {
        Seq::empty()
    } else {
        let e = entries[entries.len() - 1];
        trees_of(entries.drop_last(), depth).push(tree_of(e.name@, e.node, depth))
    }
}

proof fn lemma_tree_views_index(s: Seq<TreeNode>)
    ensures
        tree_views(s) =~= s.map_values(|t: TreeNode| tree_view(t)),
    decreases s.len(),
{
    if s.len() > 0 {
        lemma_tree_views_index(s.drop_last());
    }
}

/// Builds the size tree of `node` down to `depth` levels, each level largest first.
pub fn build_tree(name: &str, node: &Node, depth: usize) -> (r: TreeNode)
    requires
        bytes_of(*node) <= u64::MAX,
    ensures
        tree_view(r) == tree_of(name@, *node, depth as nat),
    decreases node,
{
    let bytes = measure_path(node);
    let mut children: Vec<TreeNode> = Vec::new();
    match node {
        Node::Dir(entries) => {
            if depth > 0 {
                let mut i: usize = 0;
                assert(entries@.take(0) =~= Seq::<Entry>::empty());
                while i < entries.len()
                    invariant
                        i <= entries@.len(),
                        depth > 0,
                        *node == Node::Dir(*entries),
                        bytes_of_all(entries@) <= u64::MAX,
                        tree_views(children@) == trees_of(
                            entries@.take(i as int),
                            (depth - 1) as nat,
                        ),
                    decreases entries@.len() - i,
                {
                    proof {
                        let now = entries@.take(i + 1);
                        assert(now.drop_last() =~= entries@.take(i as int));
                        assert(now[now.len() - 1] == entries@[i as int]);
                        lemma_entry_bytes(entries@, i as int);
                        assert(decreases_to!(*node => node->Dir_0));
                        assert(decreases_to!(node->Dir_0 => entries@));
                        assert(decreases_to!(entries@ => entries@[i as int]));
                        assert(decreases_to!(entries@[i as int] => entries@[i as int].node));
                    }
                    let child = build_tree(entries[i].name.as_str(), &entries[i].node, depth - 1);
                    assert(children@.push(child).drop_last() =~= children@);
                    children.push(child);
                    i += 1;
                }
                assert(entries@.take(entries@.len() as int) =~= entries@);
                let ghost before = |a: TreeNode, b: TreeNode| a.bytes > b.bytes;
                let ghost raw = children@;
                children =
                sort_stably(
                    children,
                    tree_is_larger,
                    Ghost(before),
                );
                proof {
                    lemma_tree_views_index(raw);
                    lemma_tree_views_index(children@);
                    order::lemma_ordered_map(
                        raw,
                        |t: TreeNode| tree_view(t),
                        before,
                        larger_tree(),
                    );
                }
            }
        },
        _ => {},
    }
    TreeNode { name: name.to_owned(), bytes, children }
}

/// A directory is as large as its entries together.
pub proof fn directory_is_sum_of_entries(entries: Vec<Entry>)
    ensures
        bytes_of(Node::Dir(entries)) == bytes_of_all(entries@),
        entries@.len() == 0 ==> bytes_of(Node::Dir(entries)) == 0,
{
}

fn child_is_larger(a: &ChildSize, b: &ChildSize) -> (r: bool)
    ensures
        r == (a.bytes > b.bytes),
{
    a.bytes > b.bytes
}

fn tree_is_larger(a: &TreeNode, b: &TreeNode) -> (r: bool)
    ensures
        r == (a.bytes > b.bytes),
{
    a.bytes > b.bytes
}

/// Children come largest first, none is lost, and ties keep their order.
pub proof fn children_come_largest_first(s: Seq<ChildView>, x: ChildView)
    ensures
        order::in_order(order::ordered(s, larger_child()), larger_child()),
        order::ordered(s, larger_child()).to_multiset() == s.to_multiset(),
        order::tied_with(order::ordered(s, larger_child()), x, larger_child()) == order::tied_with(
            s,
            x,
            larger_child(),
        ),
{
    order::ordering_puts_in_order(s, larger_child());
    order::ordering_keeps_items(s, larger_child());
    order::ordering_is_stable(s, x, larger_child());
}

} // verus!
