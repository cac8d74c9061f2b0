//! What IEEE double precision does to byte counts, in integers.
//!
//! Sizes are compared and printed as doubles. A double has 53 significant bits, so a count
//! below 2^53 is itself; a larger one is rounded to the nearest multiple of a power of two.

use vstd::prelude::*;

verus! {

/// `n / d`, rounded to the nearest integer, halves to the even one.
pub open spec fn round_half_even(n: nat, d: nat) -> nat {
    let q = n / d;
    let r = n % d;
    if 2 * r < d || (2 * r == d && q % 2 == 0) { q } else { q + 1 }
}

/// The distance between neighbouring doubles just above or at `n`.
pub open spec fn spacing(n: nat) -> nat
    decreases n,
{
    if n < 0x20_0000_0000_0000 { 1 } else { 2 * spacing(n / 2) }
}

/// The double nearest to `n`.
pub open spec fn nearest(n: nat) -> nat {
    round_half_even(n, spacing(n)) * spacing(n)
}

/// A count below 2^53 is a double.
pub proof fn small_counts_are_exact(n: nat)
    requires
        n < 0x20_0000_0000_0000,
    ensures
        nearest(n) == n,
{
    let q = round_half_even(n, spacing(n));
    assert(n / 1 == n && n % 1 == 0);
    assert(q * spacing(n) == q) by (nonlinear_arith)
        requires
            spacing(n) == 1,
    ;
}

proof fn lemma_spacing_positive(n: nat)
    ensures
        1 <= spacing(n),
        n < 0x20_0000_0000_0000 * spacing(n),
        n >= 0x20_0000_0000_0000 ==> spacing(n) <= n,
    decreases n,
{
    if n >= 0x20_0000_0000_0000 {
        lemma_spacing_positive(n / 2);
    }
}

fn spacing_of(n: u128) -> (r: u128)
    ensures
        r == spacing(n as nat),
        1 <= r,
        r <= n || r == 1,
    decreases n,
{
    proof {
        lemma_spacing_positive(n as nat);
        lemma_spacing_positive((n / 2) as nat);
    }
    if n < 0x20_0000_0000_0000 {
        1
    } else {
        2 * spacing_of(n / 2)
    }
}

/// `n / d`, rounded half to even.
pub fn round_div(n: u128, d: u128) -> (r: u128)
    requires
        0 < d <= 0x3FFF_FFFF_FFFF_FFFF_FFFF_FFFF_FFFF_FFFF,
        n <= 0x3FFF_FFFF_FFFF_FFFF_FFFF_FFFF_FFFF_FFFF,
    ensures
        r == round_half_even(n as nat, d as nat),
{
    let q = n / d;
    let r = n % d;
    assert(q <= n) by (nonlinear_arith)
        requires
            q == n / d,
            d > 0,
            n >= 0,
    ;
    if 2 * r < d || (2 * r == d && q % 2 == 0) {
        q
    } else {
        q + 1
    }
}

proof fn lemma_rounded_bound(n: nat)
    ensures
        nearest(n) <= 2 * n,
        spacing(n) <= n || n < 0x20_0000_0000_0000,
{
    let d = spacing(n);
    lemma_spacing_positive(n);
    let q = n / d;
    assert(q * d <= n) by (nonlinear_arith)
        requires
            q == n / d,
            d > 0,
            n >= 0,
    ;
    if n < 0x20_0000_0000_0000 {
        small_counts_are_exact(n);
    } else {
        assert((q + 1) * d == q * d + d) by (nonlinear_arith);
    }
}

/// The double nearest to `n`.
pub fn nearest_of(n: u128) -> (r: u128)
    requires
        n <= 0xFF_FFFF_FFFF_FFFF_FFFF,
    ensures
        r == nearest(n as nat),
        r <= 2 * n,
{
    proof {
        lemma_rounded_bound(n as nat);
        lemma_spacing_positive(n as nat);
    }
    let d = spacing_of(n);
    let q = round_div(n, d);
    assert(q * d == nearest(n as nat));
    q * d
}

/// The thresholds that quotients are held against.
#[derive(Debug, Clone, Copy, PartialEq, Eq, Structural)]
pub enum Threshold {
    Quarter,
    Two,
    Three,
    Ten,
}

/// The middle between a threshold and the double below it, as numerator and denominator.
///
/// A quotient is rounded to the nearest double, and the middle to the even neighbour, which
/// for each of these is the threshold itself. So a quotient reaches the threshold exactly
/// when the true quotient is not below the middle.
pub open spec fn middle_below(t: Threshold) -> (nat, nat) {
    match t {
        Threshold::Quarter => (0x3F_FFFF_FFFF_FFFF, 0x100_0000_0000_0000),
        Threshold::Two => (0x3F_FFFF_FFFF_FFFF, 0x20_0000_0000_0000),
        Threshold::Three => (0x2F_FFFF_FFFF_FFFF, 0x10_0000_0000_0000),
        Threshold::Ten => (0x27_FFFF_FFFF_FFFF, 0x4_0000_0000_0000),
    }
}

/// Whether the quotient of the doubles nearest to `a` and `m` reaches `t`.
pub open spec fn quotient_reaches(a: nat, m: nat, t: Threshold) -> bool {
    nearest(a) * middle_below(t).1 >= middle_below(t).0 * nearest(m)
}

/// Whether `a / m`, computed in doubles, reaches `t`.
pub fn reaches(a: u64, m: u64, t: Threshold) -> (r: bool)
    ensures
        r == quotient_reaches(a as nat, m as nat, t),
{
    let x = nearest_of(a as u128);
    let y = nearest_of(m as u128);
    let w: u128 = match t {
        Threshold::Quarter => 0x3F_FFFF_FFFF_FFFF,
        Threshold::Two => 0x3F_FFFF_FFFF_FFFF,
        Threshold::Three => 0x2F_FFFF_FFFF_FFFF,
        Threshold::Ten => 0x27_FFFF_FFFF_FFFF,
    };
    let s: u128 = match t {
        Threshold::Quarter => 0x100_0000_0000_0000,
        Threshold::Two => 0x20_0000_0000_0000,
        Threshold::Three => 0x10_0000_0000_0000,
        Threshold::Ten => 0x4_0000_0000_0000,
    };
    assert(x * s <= 0x1_FFFF_FFFF_FFFF_FFFF * 0x100_0000_0000_0000) by (nonlinear_arith)
        requires
            0 <= x <= 0x1_FFFF_FFFF_FFFF_FFFF,
            0 <= s <= 0x100_0000_0000_0000,
    ;
    assert(w * y <= 0x1_FFFF_FFFF_FFFF_FFFF * 0x100_0000_0000_0000) by (nonlinear_arith)
        requires
            0 <= y <= 0x1_FFFF_FFFF_FFFF_FFFF,
            0 <= w <= 0x100_0000_0000_0000,
    ;
    x * s >= w * y
}

/// Whether `a`, as a double, is at least ten times the double `m`.
pub open spec fn ten_times(a: nat, m: nat) -> bool {
    nearest(a) >= nearest(10 * nearest(m))
}

/// Whether `a` is at least ten times `m`, computed in doubles.
pub fn is_ten_times(a: u64, m: u64) -> (r: bool)
    ensures
        r == ten_times(a as nat, m as nat),
{
    let x = nearest_of(a as u128);
    let y = nearest_of(m as u128);
    x >= nearest_of(10 * y)
}

/// The power of two, from `s` on, that brings `x` up to 2^52 times `y`, so that the quotient
/// has all the significant bits of a double before its point.
pub open spec fn scale_for(x: nat, y: nat, s: nat) -> nat
    decreases
            if x * s < 0x10_0000_0000_0000 * y {
                0x10_0000_0000_0000 * y - x * s
            } else {
                0
            },
{
    if x == 0 || s == 0 || x * s >= 0x10_0000_0000_0000 * y {
        s
    } else {
        proof {
            assert(0 < x * s < x * (2 * s)) by (nonlinear_arith)
                requires
                    x > 0,
                    s > 0,
            ;
        }
        scale_for(x, y, 2 * s)
    }
}

proof fn lemma_scale_grows(x: nat, s: nat)
    requires
        x > 0,
        s > 0,
    ensures
        x * (2 * s) == 2 * (x * s),
        x * s > 0,
{
    assert(x * (2 * s) == 2 * (x * s)) by (nonlinear_arith);
    assert(x * s > 0) by (nonlinear_arith)
        requires
            x > 0,
            s > 0,
    ;
}

/// How many of `width` columns are full for `bytes` out of `max`: the quotient, times the
/// width, rounded to the nearest integer, each step in doubles.
pub open spec fn columns(bytes: nat, max: nat, width: nat) -> nat {
    let x = nearest(bytes);
    let y = nearest(max);
    let s = scale_for(x, y, 1);
    let wide = nearest(round_half_even(x * s, y) * width);
    let rounded = (2 * wide + s) / (2 * s);
    if x == 0 {
        0
    } else if rounded > width {
        width
    } else {
        rounded
    }
}

/// How many of `width` columns are full for `bytes` out of `max`.
pub fn full_columns(bytes: u64, max: u64, width: usize) -> (r: usize)
    requires
        bytes <= max,
        0 < max,
        width <= 64,
    ensures
        r == columns(bytes as nat, max as nat, width as nat),
        r <= width,
{
    let x = nearest_of(bytes as u128);
    let y = nearest_of(max as u128);
    proof {
        lemma_nearest_positive(max as nat);
    }
    if x == 0 {
        return 0;
    }
    let floor: u128 = 0x10_0000_0000_0000 * y;
    let mut s: u128 = 1;
    let mut top: u128 = x;
    assert(x * 1 == x);
    while top < floor
        invariant
            0 < x <= top <= 0x2_0000_0000_0000_0000_0000_0000_0000_00,
            0 < y <= 0x2_0000_0000_0000_0000,
            floor == 0x10_0000_0000_0000 * y,
            0 < s <= top,
            top == x * s,
            top < 2 * floor || top <= 0x2_0000_0000_0000_0000,
            scale_for(x as nat, y as nat, 1) == scale_for(x as nat, y as nat, s as nat),
        decreases 2 * floor - top,
    {
        proof {
            lemma_scale_grows(x as nat, s as nat);
        }
        top = 2 * top;
        s = 2 * s;
    }
    let m = round_div(top, y);
    proof {
        lemma_quotient_bound(top as nat, y as nat);
    }
    let w = width as u128;
    assert(m * w <= 0x2_0000_0000_0000_0001 * 64) by (nonlinear_arith)
        requires
            0 <= m <= 0x2_0000_0000_0000_0001,
            0 <= w <= 64,
    ;
    let wide = nearest_of(m * w);
    let rounded = (2 * wide + s) / (2 * s);
    if rounded > w {
        width
    } else {
        rounded as usize
    }
}

proof fn lemma_nearest_positive(n: nat)
    requires
        n > 0,
    ensures
        nearest(n) > 0,
{
    let d = spacing(n);
    lemma_spacing_positive(n);
    if n < 0x20_0000_0000_0000 {
        small_counts_are_exact(n);
    } else {
        assert(n / d >= 1) by (nonlinear_arith)
            requires
                0 < d <= n,
        ;
        let q = round_half_even(n, d);
        assert(q * d > 0) by (nonlinear_arith)
            requires
                q >= 1,
                d >= 1,
        ;
    }
}

proof fn lemma_quotient_bound(n: nat, d: nat)
    requires
        d > 0,
        n < 0x20_0000_0000_0000 * d || n <= 0x2_0000_0000_0000_0000,
    ensures
        round_half_even(n, d) <= 0x2_0000_0000_0000_0001,
{
    let q = n / d;
    if n < 0x20_0000_0000_0000 * d {
        assert(q < 0x20_0000_0000_0000) by (nonlinear_arith)
            requires
                q == n / d,
                n < 0x20_0000_0000_0000 * d,
                d > 0,
        ;
    } else {
        assert(q <= n) by (nonlinear_arith)
            requires
                q == n / d,
                d > 0,
                n >= 0,
        ;
    }
}

} // verus!
