//! Stable sorting.

use vstd::prelude::*;

verus! {

/// Where `x` goes in an ordered list: behind every item that it does not go before.
pub open spec fn place<T>(s: Seq<T>, x: T, before: spec_fn(T, T) -> bool) -> nat
    decreases s.len(),
{
    if s.len() == 0 {
        0
    } else if before(x, s.last()) {
        place(s.drop_last(), x, before)
    } else {
        s.len()
    }
}

/// The items of `s`, ordered by `before`; items of which neither goes before the other keep
/// their order.
pub open spec fn ordered<T>(s: Seq<T>, before: spec_fn(T, T) -> bool) -> Seq<T>
    decreases s.len(),
{
    if s.len() == 0 {
        s
    } else {
        let rest = ordered(s.drop_last(), before);
        rest.insert(place(rest, s.last(), before) as int, s.last())
    }
}

/// `before` is a strict order in which being tied is an equivalence.
pub open spec fn weak_order<T>(before: spec_fn(T, T) -> bool) -> bool {
    &&& forall|a: T| !#[trigger] before(a, a)
    &&& forall|a: T, b: T, c: T|
        #![trigger before(a, b), before(b, c)]
        before(a, b) && before(b, c) ==> before(a, c)
    &&& forall|a: T, b: T, c: T|
        #![trigger before(a, b), before(b, c)]
        !before(a, b) && !before(b, c) ==> !before(a, c)
}

/// No item stands behind one that it should go before.
pub open spec fn in_order<T>(s: Seq<T>, before: spec_fn(T, T) -> bool) -> bool {
    forall|i: int, j: int| 0 <= i < j < s.len() ==> !before(#[trigger] s[j], #[trigger] s[i])
}

proof fn lemma_place_bound<T>(s: Seq<T>, x: T, before: spec_fn(T, T) -> bool)
    ensures
        place(s, x, before) <= s.len(),
        forall|i: int| place(s, x, before) <= i < s.len() ==> before(x, #[trigger] s[i]),
        place(s, x, before) > 0 ==> !before(x, s[place(s, x, before) - 1]),
    decreases s.len(),
{
    if s.len() > 0 && before(x, s.last()) {
        let t = s.drop_last();
        lemma_place_bound(t, x, before);
        assert forall|i: int| place(s, x, before) <= i < s.len() implies before(
            x,
            #[trigger] s[i],
        ) by {
            if i < t.len() {
                assert(t[i] == s[i]);
            }
        }
    }
}

/// Ordering keeps the number of items.
pub proof fn lemma_ordered_len<T>(s: Seq<T>, before: spec_fn(T, T) -> bool)
    ensures
        ordered(s, before).len() == s.len(),
    decreases s.len(),
{
    if s.len() > 0 {
        let rest = ordered(s.drop_last(), before);
        lemma_ordered_len(s.drop_last(), before);
        lemma_place_bound(rest, s.last(), before);
    }
}

/// Ordering keeps every item, as often as it occurs.
pub proof fn ordering_keeps_items<T>(s: Seq<T>, before: spec_fn(T, T) -> bool)
    ensures
        ordered(s, before).to_multiset() == s.to_multiset(),
        ordered(s, before).len() == s.len(),
    decreases s.len(),
{
    lemma_ordered_len(s, before);
    if s.len() > 0 {
        let rest = ordered(s.drop_last(), before);
        ordering_keeps_items(s.drop_last(), before);
        lemma_place_bound(rest, s.last(), before);
        let k = place(rest, s.last(), before) as int;
        rest.to_multiset_ensures();
        s.drop_last().to_multiset_ensures();
        assert(s.drop_last().push(s.last()) =~= s);
        vstd::seq_lib::lemma_multiset_commutative(
            rest.take(k).push(s.last()),
            rest.skip(k),
        );
        rest.take(k).to_multiset_ensures();
        vstd::seq_lib::lemma_multiset_commutative(rest.take(k), rest.skip(k));
        assert(rest.take(k) + rest.skip(k) =~= rest);
        assert(rest.insert(k, s.last()) =~= rest.take(k).push(s.last()) + rest.skip(k));
        assert(ordered(s, before).to_multiset() =~= s.to_multiset());
    }
}

/// Ordering neither drops nor adds an item.
pub proof fn lemma_ordered_contains<T>(s: Seq<T>, x: T, before: spec_fn(T, T) -> bool)
    ensures
        ordered(s, before).contains(x) == s.contains(x),
{
    ordering_keeps_items(s, before);
    s.to_multiset_ensures();
    ordered(s, before).to_multiset_ensures();
    assert(s.contains(x) <==> s.to_multiset().count(x) > 0);
    assert(ordered(s, before).contains(x) <==> ordered(s, before).to_multiset().count(x) > 0);
}

/// The ordered list is in order.
pub proof fn ordering_puts_in_order<T>(s: Seq<T>, before: spec_fn(T, T) -> bool)
    requires
        weak_order(before),
    ensures
        in_order(ordered(s, before), before),
    decreases s.len(),
{
    if s.len() > 0 {
        let x = s.last();
        let rest = ordered(s.drop_last(), before);
        ordering_puts_in_order(s.drop_last(), before);
        lemma_place_bound(rest, x, before);
        let k = place(rest, x, before) as int;
        let r = rest.insert(k, x);
        assert(forall|i: int| 0 <= i < k ==> r[i] == rest[i]);
        assert(r[k] == x);
        assert(forall|i: int| k < i < r.len() ==> r[i] == rest[i - 1]);
        assert forall|i: int, j: int| 0 <= i < j < r.len() implies !before(
            #[trigger] r[j],
            #[trigger] r[i],
        ) by {
            if j == k {
                assert(!before(x, rest[k - 1]));
                if i < k - 1 {
                    assert(!before(rest[k - 1], rest[i]));
                }
            } else if i == k {
                let y = rest[j - 1];
                assert(before(x, y));
                if before(y, x) {
                    assert(before(x, x));
                }
            } else if i < k && j > k {
                assert(!before(rest[j - 1], rest[i]));
            } else if j < k {
                assert(!before(rest[j], rest[i]));
            } else {
                assert(!before(rest[j - 1], rest[i - 1]));
            }
        }
    }
}

/// The items of `s` that are tied with `x`, in their order.
pub open spec fn tied_with<T>(s: Seq<T>, x: T, before: spec_fn(T, T) -> bool) -> Seq<T>
    decreases s.len(),
{
    if s.len() == 0 {
        s
    } else {
        let rest = tied_with(s.drop_last(), x, before);
        if !before(x, s.last()) && !before(s.last(), x) { rest.push(s.last()) } else { rest }
    }
}

proof fn lemma_tied_concat<T>(a: Seq<T>, b: Seq<T>, x: T, before: spec_fn(T, T) -> bool)
    ensures
        tied_with(a + b, x, before) == tied_with(a, x, before) + tied_with(b, x, before),
    decreases b.len(),
{
    if b.len() == 0 {
        assert(a + b =~= a);
        assert(tied_with(a, x, before) + b =~= tied_with(a, x, before));
    } else {
        assert((a + b).drop_last() =~= a + b.drop_last());
        assert((a + b).last() == b.last());
        lemma_tied_concat(a, b.drop_last(), x, before);
        assert(tied_with(a + b, x, before) =~= tied_with(a, x, before) + tied_with(b, x, before));
    }
}

proof fn lemma_none_tied<T>(s: Seq<T>, x: T, before: spec_fn(T, T) -> bool)
    requires
        forall|i: int| 0 <= i < s.len() ==> before(x, #[trigger] s[i]) || before(s[i], x),
    ensures
        tied_with(s, x, before).len() == 0,
    decreases s.len(),
{
    if s.len() > 0 {
        assert(before(x, s[s.len() - 1]) || before(s[s.len() - 1], x));
        lemma_none_tied(s.drop_last(), x, before);
    }
}

/// Ordering is stable: items that are tied with each other keep their order.
pub proof fn ordering_is_stable<T>(s: Seq<T>, x: T, before: spec_fn(T, T) -> bool)
    requires
        weak_order(before),
    ensures
        tied_with(ordered(s, before), x, before) == tied_with(s, x, before),
    decreases s.len(),
{
    if s.len() > 0 {
        let y = s.last();
        let rest = ordered(s.drop_last(), before);
        ordering_is_stable(s.drop_last(), x, before);
        lemma_place_bound(rest, y, before);
        let k = place(rest, y, before) as int;
        let a = rest.take(k);
        let b = rest.skip(k);
        assert(a + b =~= rest);
        assert(rest.insert(k, y) =~= a.push(y) + b);
        lemma_tied_concat(a, b, x, before);
        lemma_tied_concat(a.push(y), b, x, before);
        assert(a.push(y).drop_last() =~= a);
        if !before(x, y) && !before(y, x) {
            assert forall|i: int| 0 <= i < b.len() implies before(x, #[trigger] b[i]) || before(
                b[i],
                x,
            ) by {
                assert(b[i] == rest[k + i]);
                assert(before(y, b[i]));
                if !before(x, b[i]) {
                    assert(!before(y, x) && !before(x, b[i]) ==> !before(y, b[i]));
                }
            }
            lemma_none_tied(b, x, before);
            assert(tied_with(b, x, before) =~= Seq::<T>::empty());
            assert(tied_with(a, x, before) + tied_with(b, x, before) =~= tied_with(a, x, before));
            assert(tied_with(a.push(y), x, before) + tied_with(b, x, before) =~= tied_with(
                a,
                x,
                before,
            ).push(y));
        }
    }
}

proof fn lemma_place_map<T, U>(
    s: Seq<T>,
    x: T,
    f: spec_fn(T) -> U,
    before: spec_fn(T, T) -> bool,
    image: spec_fn(U, U) -> bool,
)
    requires
        forall|a: T, b: T| #[trigger] before(a, b) == image(f(a), f(b)),
    ensures
        place(s, x, before) == place(s.map_values(f), f(x), image),
    decreases s.len(),
{
    if s.len() > 0 {
        let m = s.map_values(f);
        assert(m.last() == f(s.last()));
        assert(before(x, s.last()) == image(f(x), f(s.last())));
        assert(m.drop_last() =~= s.drop_last().map_values(f));
        lemma_place_map(s.drop_last(), x, f, before, image);
    }
}

/// Ordering items and ordering what stands for them come to the same.
pub proof fn lemma_ordered_map<T, U>(
    s: Seq<T>,
    f: spec_fn(T) -> U,
    before: spec_fn(T, T) -> bool,
    image: spec_fn(U, U) -> bool,
)
    requires
        forall|a: T, b: T| #[trigger] before(a, b) == image(f(a), f(b)),
    ensures
        ordered(s, before).map_values(f) == ordered(s.map_values(f), image),
    decreases s.len(),
{
    let m = s.map_values(f);
    if s.len() == 0 {
        assert(ordered(s, before).map_values(f) =~= ordered(m, image));
    } else {
        let x = s.last();
        let rest = ordered(s.drop_last(), before);
        assert(m.drop_last() =~= s.drop_last().map_values(f));
        assert(m.last() == f(x));
        lemma_ordered_map(s.drop_last(), f, before, image);
        lemma_place_map(rest, x, f, before, image);
        lemma_place_bound(rest, x, before);
        let k = place(rest, x, before) as int;
        assert(rest.insert(k, x).map_values(f) =~= rest.map_values(f).insert(k, f(x)));
    }
}

/// The sum of a weight over a list.
pub open spec fn sum<T>(s: Seq<T>, weight: spec_fn(T) -> nat) -> nat
    decreases s.len(),
{
    if s.len() == 0 { 0 } else { sum(s.drop_last(), weight) + weight(s.last()) }
}

/// The sum over a list and one item more.
pub proof fn lemma_sum_push<T>(s: Seq<T>, x: T, weight: spec_fn(T) -> nat)
    ensures
        sum(s.push(x), weight) == sum(s, weight) + weight(x),
{
    assert(s.push(x).drop_last() =~= s);
}

/// The sum over two lists, one behind the other.
pub proof fn lemma_sum_concat<T>(a: Seq<T>, b: Seq<T>, weight: spec_fn(T) -> nat)
    ensures
        sum(a + b, weight) == sum(a, weight) + sum(b, weight),
    decreases b.len(),
{
    if b.len() == 0 {
        assert(a + b =~= a);
    } else {
        assert((a + b).drop_last() =~= a + b.drop_last());
        assert((a + b).last() == b.last());
        lemma_sum_concat(a, b.drop_last(), weight);
    }
}

/// The sum over the first items is no more than over all.
pub proof fn lemma_sum_take<T>(s: Seq<T>, k: int, weight: spec_fn(T) -> nat)
    requires
        0 <= k <= s.len(),
    ensures
        sum(s.take(k), weight) <= sum(s, weight),
{
    assert(s.take(k) + s.skip(k) =~= s);
    lemma_sum_concat(s.take(k), s.skip(k), weight);
}

/// The sum up to and with the next item.
pub proof fn lemma_sum_step<T>(s: Seq<T>, k: int, weight: spec_fn(T) -> nat)
    requires
        0 <= k < s.len(),
    ensures
        sum(s.take(k + 1), weight) == sum(s.take(k), weight) + weight(s[k]),
        sum(s.take(k + 1), weight) <= sum(s, weight),
{
    assert(s.take(k + 1) =~= s.take(k).push(s[k]));
    lemma_sum_push(s.take(k), s[k], weight);
    lemma_sum_take(s, k + 1, weight);
}

/// Ordering keeps the sum.
pub proof fn lemma_sum_ordered<T>(
    s: Seq<T>,
    before: spec_fn(T, T) -> bool,
    weight: spec_fn(T) -> nat,
)
    ensures
        sum(ordered(s, before), weight) == sum(s, weight),
    decreases s.len(),
{
    if s.len() > 0 {
        let x = s.last();
        let rest = ordered(s.drop_last(), before);
        lemma_sum_ordered(s.drop_last(), before, weight);
        lemma_place_bound(rest, x, before);
        let k = place(rest, x, before) as int;
        assert(rest.insert(k, x) =~= rest.take(k).push(x) + rest.skip(k));
        assert(rest.take(k) + rest.skip(k) =~= rest);
        lemma_sum_concat(rest.take(k).push(x), rest.skip(k), weight);
        lemma_sum_concat(rest.take(k), rest.skip(k), weight);
        lemma_sum_push(rest.take(k), x, weight);
    }
}

/// The views of a list of items.
pub open spec fn views<T: View>(s: Seq<T>) -> Seq<T::V> {
    s.map_values(|t: T| t@)
}

/// Appending an item appends its view.
pub proof fn lemma_views_push<T: View>(s: Seq<T>, x: T)
    ensures
        views(s.push(x)) == views(s).push(x@),
{
    assert(views(s.push(x)) =~= views(s).push(x@));
}

/// Orders `items` by an order on their views, keeping tied items in their order.
pub(crate) fn sort_by_view<T: View, F: Fn(&T, &T) -> bool>(
    items: Vec<T>,
    f: F,
    Ghost(before): Ghost<spec_fn(T::V, T::V) -> bool>,
) -> (r: Vec<T>)
    requires
        forall|a: &T, b: &T| #[trigger] call_requires(f, (a, b)),
        forall|a: &T, b: &T, r: bool| #[trigger]
            call_ensures(f, (a, b), r) ==> r == before(a@, b@),
    ensures
        views(r@) == ordered(views(items@), before),
{
    let ghost deep = |a: T, b: T| before(a@, b@);
    proof {
        lemma_ordered_map(items@, |t: T| t@, deep, before);
    }
    sort_stably(items, f, Ghost(deep))
}

/// Orders `items` by `before`, keeping tied items in their order.
pub(crate) fn sort_stably<T, F: Fn(&T, &T) -> bool>(
    items: Vec<T>,
    f: F,
    Ghost(before): Ghost<spec_fn(T, T) -> bool>,
) -> (r: Vec<T>)
    requires
        forall|a: &T, b: &T| #[trigger] call_requires(f, (a, b)),
        forall|a: &T, b: &T, r: bool| #[trigger]
            call_ensures(f, (a, b), r) ==> r == before(*a, *b),
    ensures
        r@ == ordered(items@, before),
{
    let mut v = items;
    let n = v.len();
    let mut j: usize = 0;
    let ghost all = v@;
    assert(all.take(0) =~= Seq::<T>::empty());
    assert(ordered(all.take(0), before) + all.skip(0) =~= all);
    while j < n
        invariant
            j <= n,
            n == all.len(),
            v@.len() == n,
            v@ == ordered(all.take(j as int), before) + all.skip(j as int),
            ordered(all.take(j as int), before).len() == j,
            forall|a: &T, b: &T| #[trigger] call_requires(f, (a, b)),
            forall|a: &T, b: &T, r: bool| #[trigger]
                call_ensures(f, (a, b), r) ==> r == before(*a, *b),
        decreases n - j,
    {
        let ghost done = ordered(all.take(j as int), before);
        let x = v.remove(j);
        let ghost x0 = x;
        assert(x == all[j as int]);
        assert(v@ =~= done + all.skip(j + 1));
        let mut k: usize = j;
        assert(done.take(j as int) =~= done);
        while k > 0 && f(&x, &v[k - 1])
            invariant
                k <= j < n,
                x == x0,
                done.len() == j,
                v@ == done + all.skip(j + 1),
                n == all.len(),
                place(done, x0, before) == place(done.take(k as int), x0, before),
                forall|a: &T, b: &T| #[trigger] call_requires(f, (a, b)),
                forall|a: &T, b: &T, r: bool| #[trigger]
                    call_ensures(f, (a, b), r) ==> r == before(*a, *b),
            decreases k,
        {
            proof {
                let t = done.take(k as int);
                assert(t.last() == v@[k - 1]);
                assert(t.drop_last() =~= done.take(k - 1));
            }
            k -= 1;
        }
        proof {
            let t = done.take(k as int);
            if k > 0 {
                assert(t.last() == v@[k - 1]);
            }
            assert(place(done, x0, before) == k);
            assert(all.take(j + 1).drop_last() =~= all.take(j as int));
            assert(all.take(j + 1).last() == x0);
            assert((done + all.skip(j + 1)).insert(k as int, x0) =~= done.insert(k as int, x0)
                + all.skip(j + 1));
        }
        v.insert(k, x);
        j += 1;
    }
    proof {
        assert(all.take(n as int) =~= all);
        assert(ordered(all, before) + all.skip(n as int) =~= ordered(all, before));
    }
    v
}

} // verus!
