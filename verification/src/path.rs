//! Paths as text, read component by component.
//!
//! A path is absolute when it starts with `/`. Its components are the pieces between the
//! slashes; empty pieces and `.` do not count, except a `.` in front of a relative path. The
//! root of an absolute path counts as a component of its own, written `/`.

use vstd::prelude::*;

use crate::text;
use crate::text::{chars_of, same_text, split_text, text_of};

verus! {

/// Whether a piece between slashes is a component.
pub open spec fn counts(piece: Seq<char>) -> bool {
    piece.len() > 0 && piece != "."@
}

/// Whether `path` starts at the root.
pub open spec fn absolute(path: Seq<char>) -> bool {
    path.len() > 0 && path[0] == '/'
}

/// The components of `path`, the root first.
pub open spec fn components(path: Seq<char>) -> Seq<Seq<char>> {
    let ps = text::pieces(path, '/');
    let named = ps.filter(|p: Seq<char>| counts(p));
    if absolute(path) {
        seq!["/"@] + named
    } else if ps[0] == "."@ {
        seq!["."@] + named
    } else {
        named
    }
}

/// Whether two texts are the same path.
pub open spec fn same_path(a: Seq<char>, b: Seq<char>) -> bool {
    components(a) == components(b)
}

/// Whether `path` is `root` or lies under it.
pub open spec fn under(path: Seq<char>, root: Seq<char>) -> bool {
    components(root).len() <= components(path).len() && components(path).take(
        components(root).len() as int,
    ) == components(root)
}

/// Whether a component names a file or directory.
pub open spec fn is_name(part: Seq<char>) -> bool {
    part != "/"@ && part != "."@ && part != ".."@
}

/// The last component, where it is a name.
pub open spec fn file_name_of(path: Seq<char>) -> Option<Seq<char>> {
    let cs = components(path);
    if cs.len() > 0 && is_name(cs.last()) { Some(cs.last()) } else { None }
}

/// `name` inside the directory `dir`.
pub open spec fn joined_path(dir: Seq<char>, name: Seq<char>) -> Seq<char> {
    if absolute(name) {
        name
    } else if dir.len() == 0 || dir.last() == '/' {
        dir + name
    } else {
        dir + "/"@ + name
    }
}

/// Whether `part` occurs among the components of `path`.
pub open spec fn has_component(path: Seq<char>, part: Seq<char>) -> bool {
    components(path).contains(part)
}

/// Tests whether `path` starts at the root.
pub fn is_absolute(path: &str) -> (r: bool)
    ensures
        r == absolute(path@),
{
    let cs = chars_of(path);
    cs.len() > 0 && cs[0] == '/'
}

/// Splits `path` into its components.
pub fn components_of(path: &str) -> (r: Vec<String>)
    ensures
        text::texts(r@) == components(path@),
{
    let ps = split_text(path, '/');
    let ghost all = text::pieces(path@, '/');
    let ghost keep = |p: Seq<char>| counts(p);
    proof {
        text::lemma_pieces_nonempty(path@, '/');
        assert(text::texts(ps@)[0] == ps@[0]@);
    }
    let mut r: Vec<String> = Vec::new();
    if is_absolute(path) {
        r.push("/".to_owned());
        assert(text::texts(r@) =~= seq!["/"@]);
    } else if same_text(ps[0].as_str(), ".") {
        r.push(".".to_owned());
        assert(text::texts(r@) =~= seq!["."@]);
    }
    let ghost head = text::texts(r@);
    let mut i: usize = 0;
    proof {
        reveal(Seq::filter);
        assert(all.take(0) =~= Seq::<Seq<char>>::empty());
        assert(head + all.take(0).filter(keep) =~= head);
    }
    while i < ps.len()
        invariant
            i <= ps@.len(),
            text::texts(ps@) == all,
            keep == (|p: Seq<char>| counts(p)),
            text::texts(r@) == head + all.take(i as int).filter(keep),
        decreases ps@.len() - i,
    {
        proof {
            reveal(Seq::filter);
            assert(all.take(i + 1).drop_last() =~= all.take(i as int));
            assert(all.take(i + 1).last() == ps@[i as int]@);
        }
        if ps[i].as_str().unicode_len() > 0 && !same_text(ps[i].as_str(), ".") {
            let piece = ps[i].clone();
            proof {
                text::lemma_texts_push(r@, piece);
                assert((head + all.take(i as int).filter(keep)).push(piece@) =~= head + all.take(
                    i + 1,
                ).filter(keep));
            }
            r.push(piece);
        }
        i += 1;
    }
    assert(all.take(all.len() as int) =~= all);
    assert(Seq::<Seq<char>>::empty() + all.filter(keep) =~= all.filter(keep));
    r
}

fn same_prefix(a: &Vec<String>, b: &Vec<String>) -> (r: bool)
    requires
        b@.len() <= a@.len(),
    ensures
        r == (text::texts(a@).take(b@.len() as int) == text::texts(b@)),
{
    let mut i: usize = 0;
    while i < b.len()
        invariant
            i <= b@.len(),
            b@.len() <= a@.len(),
            forall|j: int| 0 <= j < i ==> a@[j]@ == b@[j]@,
        decreases b@.len() - i,
    {
        if !same_text(a[i].as_str(), b[i].as_str()) {
            proof {
                assert(text::texts(a@).take(b@.len() as int)[i as int] == a@[i as int]@);
                assert(text::texts(b@)[i as int] == b@[i as int]@);
            }
            return false;
        }
        i += 1;
    }
    assert(text::texts(a@).take(b@.len() as int) =~= text::texts(b@));
    true
}

/// Compares two paths component by component.
pub fn is_same_path(a: &str, b: &str) -> (r: bool)
    ensures
        r == same_path(a@, b@),
{
    let x = components_of(a);
    let y = components_of(b);
    if x.len() != y.len() {
        assert(text::texts(x@).len() != text::texts(y@).len());
        return false;
    }
    assert(text::texts(x@).take(y@.len() as int) =~= text::texts(x@));
    same_prefix(&x, &y)
}

/// Tests whether `path` is `root` or lies under it.
pub fn is_under(path: &str, root: &str) -> (r: bool)
    ensures
        r == under(path@, root@),
{
    let x = components_of(path);
    let y = components_of(root);
    if y.len() > x.len() {
        return false;
    }
    same_prefix(&x, &y)
}

/// Tests whether `part` is one of the components of `path`.
pub fn has_part(path: &str, part: &str) -> (r: bool)
    ensures
        r == has_component(path@, part@),
{
    let x = components_of(path);
    let mut i: usize = 0;
    while i < x.len()
        invariant
            i <= x@.len(),
            text::texts(x@) == components(path@),
            forall|j: int| 0 <= j < i ==> x@[j]@ != part@,
        decreases x@.len() - i,
    {
        if same_text(x[i].as_str(), part) {
            assert(text::texts(x@)[i as int] == part@);
            return true;
        }
        i += 1;
    }
    proof {
        if components(path@).contains(part@) {
            let j = choose|j: int|
                0 <= j < components(path@).len() && components(path@)[j] == part@;
            assert(text::texts(x@)[j] == x@[j]@);
        }
    }
    false
}

/// The last component of `path`, where it is a name.
pub fn file_name(path: &str) -> (r: Option<String>)
    ensures
        r is Some == file_name_of(path@) is Some,
        r matches Some(s) ==> Some(s@) == file_name_of(path@),
{
    let x = components_of(path);
    let ghost cs = text::texts(x@);
    if x.len() == 0 {
        return None;
    }
    assert(cs.last() == x@.last()@);
    let last = x[x.len() - 1].clone();
    if same_text(last.as_str(), "/") || same_text(last.as_str(), ".") || same_text(
        last.as_str(),
        "..",
    ) {
        None
    } else {
        Some(last)
    }
}

/// The path of `name` inside `dir`.
pub fn join_path(dir: &str, name: &str) -> (r: String)
    ensures
        r@ == joined_path(dir@, name@),
{
    if is_absolute(name) {
        return name.to_owned();
    }
    let cs = chars_of(dir);
    let mut r = dir.to_owned();
    if !(cs.len() == 0 || cs[cs.len() - 1] == '/') {
        r.append("/");
    }
    r.append(name);
    r
}

/// The stem and the extension of a file name: what stands before and behind the last dot.
/// A name without a dot, or with its only dot in front, has no extension.
pub open spec fn split_at_dot(name: Seq<char>) -> (Seq<char>, Option<Seq<char>>) {
    match name.index_of_last('.') {
        Some(k) => if k > 0 && name != ".."@ {
            (name.take(k), Some(name.skip(k + 1)))
        } else {
            (name, None)
        },
        None => (name, None),
    }
}

fn split_name(name: &str) -> (r: (String, Option<String>))
    ensures
        r.0@ == split_at_dot(name@).0,
        r.1 is Some == split_at_dot(name@).1 is Some,
        r.1 matches Some(e) ==> Some(e@) == split_at_dot(name@).1,
{
    proof {
        name@.index_of_last_ensures('.');
    }
    if same_text(name, "..") {
        return (name.to_owned(), None);
    }
    let cs = chars_of(name);
    let mut k: usize = cs.len();
    while k > 0 && cs[k - 1] != '.'
        invariant
            k <= cs@.len(),
            forall|j: int| k <= j < cs@.len() ==> cs@[j] != '.',
        decreases k,
    {
        k -= 1;
    }
    if k <= 1 {
        proof {
            if let Some(i) = name@.index_of_last('.') {
                assert(cs@[i] == '.');
                assert(i < k);
            }
        }
        return (name.to_owned(), None);
    }
    proof {
        assert(cs@[k - 1] == '.');
        assert(name@.contains('.'));
        let i = name@.index_of_last('.').unwrap();
        assert(i == k - 1);
        assert(name@.take(i) =~= cs@.subrange(0, k - 1));
        assert(name@.skip(i + 1) =~= cs@.subrange(k as int, cs@.len() as int));
    }
    let n = cs.len();
    (text_of(&cs, 0, k - 1), Some(text_of(&cs, k, n)))
}

/// The file name of `path` without its extension.
pub fn file_stem(path: &str) -> (r: Option<String>)
    ensures
        r is Some == file_name_of(path@) is Some,
        r matches Some(s) ==> s@ == split_at_dot(file_name_of(path@).unwrap()).0,
{
    match file_name(path) {
        Some(name) => Some(split_name(name.as_str()).0),
        None => None,
    }
}

/// The extension of the file name of `path`.
pub open spec fn extension_of(path: Seq<char>) -> Option<Seq<char>> {
    match file_name_of(path) {
        Some(name) => split_at_dot(name).1,
        None => None,
    }
}

/// The extension of the file name of `path`, where it has one.
pub fn extension(path: &str) -> (r: Option<String>)
    ensures
        r is Some == extension_of(path@) is Some,
        r matches Some(e) ==> Some(e@) == extension_of(path@),
{
    match file_name(path) {
        Some(name) => split_name(name.as_str()).1,
        None => None,
    }
}

} // verus!
