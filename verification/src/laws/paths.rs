//! Paths: how components follow from names that are put together.

use vstd::prelude::*;

use crate::path;
use crate::text;

verus! {

/// Whether a text can be the name of an entry: it is not empty, not `.`, and has no slash.
pub open spec fn plain_name(n: Seq<char>) -> bool {
    n.len() > 0 && n != "."@ && !n.contains('/')
}

pub(crate) proof fn lemma_pieces_concat(a: Seq<char>, b: Seq<char>, sep: char)
    ensures
        text::pieces(a.push(sep) + b, sep) == text::pieces(a, sep) + text::pieces(b, sep),
    decreases b.len(),
{
    let all = a.push(sep) + b;
    let left = text::pieces(a, sep);
    if b.len() == 0 {
        assert(all =~= a.push(sep));
        assert(all.drop_last() =~= a);
        assert(text::pieces(all, sep) =~= left + text::pieces(b, sep));
    } else {
        lemma_pieces_concat(a, b.drop_last(), sep);
        assert(all.drop_last() =~= a.push(sep) + b.drop_last());
        assert(all.last() == b.last());
        let right = text::pieces(b.drop_last(), sep);
        text::lemma_pieces_nonempty(b.drop_last(), sep);
        assert((left + right).drop_last() =~= left + right.drop_last());
        assert(text::pieces(all, sep) =~= left + text::pieces(b, sep));
    }
}

pub(crate) proof fn lemma_single_piece(n: Seq<char>, sep: char)
    requires
        !n.contains(sep),
    ensures
        text::pieces(n, sep) == seq![n],
    decreases n.len(),
{
    if n.len() == 0 {
        assert(n =~= text::nil());
    } else {
        assert(n[n.len() - 1] == n.last());
        assert forall|i: int| 0 <= i < n.drop_last().len() implies n.drop_last()[i] != sep by {
            assert(n[i] == n.drop_last()[i]);
        }
        lemma_single_piece(n.drop_last(), sep);
        let before = text::pieces(n.drop_last(), sep);
        assert(n.drop_last().push(n.last()) =~= n);
        assert(text::pieces(n, sep) =~= seq![n]);
    }
}

/// What follows a directory and a slash adds its own components.
pub(crate) proof fn lemma_components_below(d: Seq<char>, rest: Seq<char>)
    requires
        d.len() > 0,
    ensures
        path::components(d + "/"@ + rest) == path::components(d) + text::pieces(rest, '/').filter(
            |p: Seq<char>| path::counts(p),
        ),
{
    reveal_strlit("/");
    let all = d + "/"@ + rest;
    let keep = |p: Seq<char>| path::counts(p);
    assert("/"@ =~= seq!['/']);
    assert(all =~= d.push('/') + rest);
    lemma_pieces_concat(d, rest, '/');
    let left = text::pieces(d, '/');
    let right = text::pieces(rest, '/');
    text::lemma_pieces_nonempty(d, '/');
    Seq::filter_distributes_over_add(left, right, keep);
    assert(all[0] == d[0]);
    assert((left + right)[0] == left[0]);
    assert(path::components(all) =~= path::components(d) + right.filter(keep));
}

proof fn lemma_filter_one(n: Seq<char>)
    requires
        path::counts(n),
    ensures
        seq![n].filter(|p: Seq<char>| path::counts(p)) == seq![n],
{
    reveal(Seq::filter);
    let s = seq![n];
    assert(s.drop_last() =~= Seq::<Seq<char>>::empty());
    assert(s.drop_last().filter(|p: Seq<char>| path::counts(p)) =~= Seq::<Seq<char>>::empty());
    assert(s.filter(|p: Seq<char>| path::counts(p)) =~= s);
}

proof fn lemma_filter_none(n: Seq<char>)
    requires
        !path::counts(n),
    ensures
        seq![n].filter(|p: Seq<char>| path::counts(p)) == Seq::<Seq<char>>::empty(),
{
    reveal(Seq::filter);
    let s = seq![n];
    assert(s.last() == n);
    assert(s.drop_last() =~= Seq::<Seq<char>>::empty());
    assert(s.drop_last().filter(|p: Seq<char>| path::counts(p)) =~= Seq::<Seq<char>>::empty());
}

/// A name inside a directory is one component more, the name itself. The root is a component
/// of its own, and a slash behind a path adds nothing.
pub proof fn names_are_components(d: Seq<char>, n: Seq<char>)
    requires
        plain_name(n),
    ensures
        d.len() > 0 ==> path::components(d + "/"@ + n) == path::components(d).push(n),
        path::components(n) == seq![n],
        path::components("/"@) == seq!["/"@],
        path::components("/"@ + n) == seq!["/"@, n],
        d.len() > 0 ==> path::components(d + "/"@) == path::components(d),
        d.len() > 0 ==> path::components(d + "/."@) == path::components(d),
{
    reveal_strlit("/");
    reveal_strlit(".");
    reveal_strlit("/.");
    let keep = |p: Seq<char>| path::counts(p);
    let nil = Seq::<char>::empty();
    lemma_single_piece(n, '/');
    lemma_filter_one(n);
    assert(n[0] != '/') by {
        assert(n.contains(n[0]));
    }
    assert(text::pieces(nil, '/') =~= seq![nil]);
    lemma_filter_none(nil);
    assert(!"."@.contains('/'));
    lemma_single_piece("."@, '/');
    lemma_filter_none("."@);
    assert(path::components(n) =~= seq![n]);
    lemma_pieces_concat(nil, nil, '/');
    assert(nil.push('/') + nil =~= "/"@);
    let two = seq![nil] + seq![nil];
    assert(text::pieces("/"@, '/') =~= two);
    Seq::filter_distributes_over_add(seq![nil], seq![nil], keep);
    assert(path::components("/"@) =~= seq!["/"@]);
    lemma_pieces_concat(nil, n, '/');
    assert(nil.push('/') + n =~= "/"@ + n);
    Seq::filter_distributes_over_add(seq![nil], seq![n], keep);
    assert(path::components("/"@ + n) =~= seq!["/"@, n]);
    if d.len() > 0 {
        lemma_components_below(d, n);
        lemma_components_below(d, nil);
        lemma_components_below(d, "."@);
        assert(d + "/"@ + nil =~= d + "/"@);
        assert(d + "/"@ + "."@ =~= d + "/."@);
        assert(path::components(d + "/"@ + n) =~= path::components(d).push(n));
        assert(path::components(d + "/"@) =~= path::components(d));
        assert(path::components(d + "/."@) =~= path::components(d));
    }
}

/// A name in a directory is written behind it, with one slash between them.
pub proof fn joining_puts_one_slash_between(d: Seq<char>, n: Seq<char>)
    requires
        n.len() > 0,
    ensures
        n[0] == '/' ==> path::joined_path(d, n) == n,
        n[0] != '/' && d.len() > 0 && d.last() != '/' ==> path::joined_path(d, n) == d + "/"@ + n,
        n[0] != '/' && d.len() > 0 && d.last() == '/' ==> path::joined_path(d, n) == d + n,
        n[0] != '/' && d.len() == 0 ==> path::joined_path(d, n) == n,
{
    assert(d.len() == 0 ==> d + n =~= n);
}

/// What is joined to a directory lies under it, is no other path, and has the joined name as
/// its file name.
pub proof fn what_is_joined_lies_under(d: Seq<char>, n: Seq<char>)
    requires
        plain_name(n),
        n != ".."@,
        d.len() > 0,
        d.last() != '/',
    ensures
        path::under(path::joined_path(d, n), d),
        path::under(d, d),
        !path::under(d, path::joined_path(d, n)),
        !path::same_path(d, path::joined_path(d, n)),
        path::file_name_of(path::joined_path(d, n)) == Some(n),
{
    names_are_components(d, n);
    joining_puts_one_slash_between(d, n);
    assert(n[0] != '/') by {
        assert(n.contains(n[0]));
    }
    reveal_strlit("/");
    let cs = path::components(d);
    assert(cs.push(n).take(cs.len() as int) =~= cs);
    assert(cs.take(cs.len() as int) =~= cs);
    assert(n != "/"@) by {
        if n == "/"@ {
            assert(n[0] == '/');
        }
    }
}

/// Two texts are the same path exactly where they have the same components, and one lies under
/// another exactly where it begins with the components of the other.
pub proof fn paths_go_by_components(a: Seq<char>, b: Seq<char>)
    ensures
        path::same_path(a, b) <==> path::components(a) == path::components(b),
        path::under(a, b) <==> exists|k: int|
            0 <= k <= path::components(a).len() && #[trigger] path::components(a).take(k)
                == path::components(b),
        path::absolute(a) <==> a.len() > 0 && a[0] == '/',
{
    let x = path::components(a);
    let y = path::components(b);
    if exists|k: int| 0 <= k <= x.len() && #[trigger] x.take(k) == y {
        let k = choose|k: int| 0 <= k <= x.len() && #[trigger] x.take(k) == y;
        assert(x.take(k).len() == k);
    }
}

/// A file name is its stem, or its stem, a dot and its extension; the stem is not empty and the
/// extension has no dot.
pub proof fn names_are_stem_and_extension(name: Seq<char>)
    requires
        name.len() > 0,
    ensures
        ({
            let (stem, ext) = path::split_at_dot(name);
            &&& stem.len() > 0
            &&& ext is None ==> stem == name
            &&& ext matches Some(e) ==> name == stem.push('.') + e && !e.contains('.')
            &&& ext is None ==> name == ".."@ || (forall|i: int|
                0 < i < name.len() ==> #[trigger] name[i] != '.')
        }),
{
    name.index_of_last_ensures('.');
    if let Some(k) = name.index_of_last('.') {
        let (stem, ext) = path::split_at_dot(name);
        if let Some(e) = ext {
            assert(name =~= stem.push('.') + e);
            if e.contains('.') {
                let j = choose|j: int| 0 <= j < e.len() && e[j] == '.';
                assert(name[k + 1 + j] == '.');
            }
        }
    } else {
        assert forall|i: int| 0 < i < name.len() implies #[trigger] name[i] != '.' by {
            if name[i] == '.' {
                assert(name.contains('.'));
            }
        }
    }
}

} // verus!
