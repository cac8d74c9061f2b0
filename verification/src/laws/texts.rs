//! Texts: searching, trimming, splitting, aligning and writing numbers.

use vstd::prelude::*;

use crate::text;

verus! {

/// The texts `ps`, one after the other, with `sep` between them.
pub open spec fn rejoined(ps: Seq<Seq<char>>, sep: char) -> Seq<char>
    decreases ps.len(),
{
    if ps.len() == 0 {
        Seq::empty()
    } else if ps.len() == 1 {
        ps[0]
    } else {
        rejoined(ps.drop_last(), sep).push(sep) + ps.last()
    }
}

/// Whether a text is white space throughout.
pub open spec fn blank(s: Seq<char>) -> bool {
    forall|i: int| 0 <= i < s.len() ==> text::is_space(#[trigger] s[i])
}

/// The number that a text of digits stands for.
pub open spec fn number(s: Seq<char>) -> int
    decreases s.len(),
{
    if s.len() == 0 { 0 } else { 10 * number(s.drop_last()) + (s.last() as int - '0' as int) }
}

/// A text holds another exactly where it is made of something, that other one, and something;
/// it begins with another exactly where that is its front.
pub proof fn searching_finds_parts(hay: Seq<char>, needle: Seq<char>, a: Seq<char>, b: Seq<char>)
    ensures
        text::occurs(a + needle + b, needle),
        text::begins(needle + b, needle),
        text::occurs(hay, needle) ==> exists|k: int|
            0 <= k && k + needle.len() <= hay.len() && #[trigger] hay.subrange(
                k,
                k + needle.len(),
            ) == needle,
        text::begins(hay, needle) <==> needle.len() <= hay.len() && hay.take(needle.len() as int)
            == needle,
{
    let all = a + needle + b;
    assert(all.subrange(a.len() as int, (a.len() + needle.len()) as int) =~= needle);
    assert(text::occurs_at(all, needle, a.len() as int));
    assert((needle + b).subrange(0, needle.len() as int) =~= needle);
    if text::occurs(hay, needle) {
        let k = choose|k: int| text::occurs_at(hay, needle, k);
        assert(hay.subrange(k, k + needle.len()) == needle);
    }
    if needle.len() <= hay.len() {
        assert(hay.take(needle.len() as int) =~= hay.subrange(0, needle.len() as int));
    }
}

proof fn lemma_front(s: Seq<char>) -> (cut: Seq<char>)
    ensures
        s == cut + text::trimmed_front(s),
        blank(cut),
        text::trimmed_front(s).len() > 0 ==> !text::is_space(text::trimmed_front(s)[0]),
    decreases s.len(),
{
    if s.len() > 0 && text::is_space(s[0]) {
        let rest = s.subrange(1, s.len() as int);
        let more = lemma_front(rest);
        let cut = seq![s[0]] + more;
        assert(s =~= seq![s[0]] + rest);
        assert(text::trimmed_front(s) == text::trimmed_front(rest));
        assert(s =~= cut + text::trimmed_front(s));
        cut
    } else {
        assert(s =~= Seq::<char>::empty() + s);
        Seq::empty()
    }
}

proof fn lemma_back(s: Seq<char>) -> (cut: Seq<char>)
    ensures
        s == text::trimmed_back(s) + cut,
        blank(cut),
        text::trimmed_back(s).len() > 0 ==> !text::is_space(text::trimmed_back(s).last()),
    decreases s.len(),
{
    if s.len() > 0 && text::is_space(s.last()) {
        let more = lemma_back(s.drop_last());
        let cut = more.push(s.last());
        assert(s =~= s.drop_last().push(s.last()));
        assert(text::trimmed_back(s) == text::trimmed_back(s.drop_last()));
        assert(s =~= text::trimmed_back(s) + cut);
        cut
    } else {
        assert(s =~= s + Seq::<char>::empty());
        Seq::empty()
    }
}

/// Trimming takes away white space in front and behind, all of it, and nothing else.
pub proof fn trimming_takes_white_space(s: Seq<char>)
    ensures
        exists|front: Seq<char>, back: Seq<char>|
            blank(front) && blank(back) && s == #[trigger] (front + text::trimmed(s) + back),
        text::trimmed(s).len() > 0 ==> !text::is_space(text::trimmed(s)[0]) && !text::is_space(
            text::trimmed(s).last(),
        ),
{
    let front = lemma_front(s);
    let mid = text::trimmed_front(s);
    let back = lemma_back(mid);
    assert(s =~= front + text::trimmed(s) + back);
    if text::trimmed(s).len() > 0 {
        assert(text::trimmed(s)[0] == mid[0]);
    }
}

/// Blanks, tabs and line ends are white space; what can be seen of ASCII is not.
pub proof fn ascii_white_space(c: char)
    requires
        (c as u32) < 128,
    ensures
        text::is_space(c) <==> c == ' ' || 9 <= c as u32 <= 13,
{
}

/// Lowering ASCII changes the letters from A to Z alone, each to its small letter; two texts
/// are the same but for case exactly where their lowered letters are the same.
pub proof fn ascii_case(c: char, a: Seq<char>, b: Seq<char>)
    ensures
        'A' <= c <= 'Z' ==> text::ascii_small(c) as u32 == c as u32 + 32,
        !('A' <= c <= 'Z') ==> text::ascii_small(c) == c,
        text::same_but_ascii_case(a, b) <==> a.map_values(|x: char| text::ascii_small(x))
            == b.map_values(|x: char| text::ascii_small(x)),
{
    let x = a.map_values(|x: char| text::ascii_small(x));
    let y = b.map_values(|x: char| text::ascii_small(x));
    if text::same_but_ascii_case(a, b) {
        assert(x =~= y);
    }
    if x == y {
        assert(a.len() == x.len() && b.len() == y.len());
        assert forall|i: int| 0 <= i < a.len() implies text::ascii_small(#[trigger] a[i])
            == text::ascii_small(b[i]) by {
            assert(x[i] == text::ascii_small(a[i]));
            assert(y[i] == text::ascii_small(b[i]));
        }
    }
}

/// Splitting loses nothing: the pieces with the separator between them are the text, and no
/// piece holds the separator.
pub proof fn pieces_make_up_the_text(s: Seq<char>, sep: char)
    ensures
        text::pieces(s, sep).len() > 0,
        rejoined(text::pieces(s, sep), sep) == s,
        forall|i: int|
            0 <= i < text::pieces(s, sep).len() ==> !(#[trigger] text::pieces(s, sep)[i]).contains(
                sep,
            ),
    decreases s.len(),
{
    let ps = text::pieces(s, sep);
    if s.len() == 0 {
        assert(rejoined(ps, sep) =~= s);
    } else {
        let before = text::pieces(s.drop_last(), sep);
        pieces_make_up_the_text(s.drop_last(), sep);
        assert(s =~= s.drop_last().push(s.last()));
        if s.last() == sep {
            assert(ps.drop_last() =~= before);
            assert(rejoined(ps, sep) =~= s);
        } else {
            assert forall|i: int| 0 <= i < ps.len() implies !(#[trigger] ps[i]).contains(sep) by {
                if i < ps.len() - 1 {
                    assert(ps[i] == before[i]);
                } else {
                    assert(!before[before.len() - 1].contains(sep));
                    if ps[i].contains(sep) {
                        let k = choose|k: int| 0 <= k < ps[i].len() && ps[i][k] == sep;
                        assert(before.last()[k] == sep);
                    }
                }
            }
            if ps.len() > 1 {
                assert(ps.drop_last() =~= before.drop_last());
            }
            assert(rejoined(ps, sep) =~= s);
        }
    }
}

/// A number is written in digits that stand for it, without a leading zero.
pub proof fn numbers_are_written_out(n: nat)
    ensures
        number(text::decimal(n)) == n,
        text::decimal(n).len() > 0,
        n > 0 ==> text::decimal(n)[0] != '0',
        n == 0 ==> text::decimal(n) == seq!['0'],
        forall|i: int|
            0 <= i < text::decimal(n).len() ==> '0' <= #[trigger] text::decimal(n)[i] <= '9',
    decreases n,
{
    let s = text::decimal(n);
    if n < 10 {
        assert(s.drop_last() =~= Seq::<char>::empty());
        assert(number(s.drop_last()) == 0);
    } else {
        numbers_are_written_out(n / 10);
        assert(s.drop_last() =~= text::decimal(n / 10));
    }
}

/// Aligning fills up with blanks on one side, and cuts nothing.
pub proof fn aligning_only_adds_blanks(s: Seq<char>, width: nat)
    ensures
        ({
            let r = text::right_aligned(s, width);
            let gap = if s.len() < width { width - s.len() } else { 0 };
            r.len() == s.len() + gap && r.skip(gap) == s && forall|i: int|
                0 <= i < gap ==> #[trigger] r[i] == ' '
        }),
        ({
            let r = text::left_aligned(s, width);
            let gap = if s.len() < width { width - s.len() } else { 0 };
            r.len() == s.len() + gap && r.take(s.len() as int) == s && forall|i: int|
                s.len() <= i < r.len() ==> #[trigger] r[i] == ' '
        }),
{
    let r = text::right_aligned(s, width);
    assert(r.skip(r.len() - s.len()) =~= s);
    let l = text::left_aligned(s, width);
    assert(l.take(s.len() as int) =~= s);
}

} // verus!
