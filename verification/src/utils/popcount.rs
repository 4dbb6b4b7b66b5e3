use vstd::prelude::*;
use vstd::arithmetic::power2::{pow2, lemma_pow2_unfold, lemma_pow2_pos, lemma2_to64, lemma_pow2_adds};

verus! {

/// Number of set bits in the binary representation of `x`.
pub open spec fn popcount(x: nat) -> nat
    decreases x,
{
    if x == 0 {
        0
    } else {
        x % 2 + popcount(x / 2)
    }
}

/// Number of trailing zero bits of a positive `x` (zero for `x == 0`).
pub open spec fn trailing_zeros(x: nat) -> nat
    decreases x,
{
    if x == 0 || x % 2 == 1 {
        0
    } else {
        1 + trailing_zeros(x / 2)
    }
}

/// The lowest set bit of a positive `x`, as a power of two.
pub open spec fn lowest_bit(x: nat) -> nat {
    pow2(trailing_zeros(x))
}

/// The next number above a positive `x` with as many set bits: add the
/// lowest set bit, then refill the cleared run of ones, less one, at the bottom.
pub open spec fn next_same_popcount(x: nat) -> nat {
    let c = lowest_bit(x);
    let r = x + c;
    (r + lowest_bit(r) / (2 * c) - 1) as nat
}

/// Whether bit `i` of `x` is set.
pub open spec fn bit_set(x: nat, i: nat) -> bool {
    (x / pow2(i)) % 2 == 1
}

pub proof fn lemma_popcount_unfold(x: nat)
    ensures
        popcount(x) == x % 2 + popcount(x / 2),
{
}

pub proof fn lemma_pow2_zero_one()
    ensures
        pow2(0) == 1,
        pow2(1) == 2,
        pow2(2) == 4,
{
    lemma2_to64();
}

/// Splitting a number at bit `j` splits its popcount.
pub proof fn lemma_popcount_split(a: nat, j: nat, b: nat)
    requires
        b < pow2(j),
    ensures
        popcount(a * pow2(j) + b) == popcount(a) + popcount(b),
    decreases j,
{
    lemma_pow2_zero_one();
    if j == 0 {
        assert(b == 0);
        assert(a * pow2(j) + b == a);
    } else {
        lemma_pow2_unfold(j);
        let p = pow2((j - 1) as nat);
        lemma_pow2_pos((j - 1) as nat);
        let v = a * pow2(j) + b;
        let w = a * p + b / 2;
        assert(a * pow2(j) == 2 * (a * p)) by (nonlinear_arith)
            requires
                pow2(j) == 2 * p,
        ;
        assert(v == 2 * w + b % 2);
        assert(v % 2 == b % 2);
        assert(v / 2 == w);
        assert(b / 2 < p);
        lemma_popcount_split(a, (j - 1) as nat, b / 2);
        lemma_popcount_unfold(v);
        lemma_popcount_unfold(b);
    }
}

/// A block of `j` ones has popcount `j`.
pub proof fn lemma_popcount_ones(j: nat)
    ensures
        pow2(j) >= 1,
        popcount((pow2(j) - 1) as nat) == j,
    decreases j,
{
    lemma_pow2_zero_one();
    lemma_pow2_pos(j);
    if j > 0 {
        lemma_pow2_unfold(j);
        lemma_popcount_ones((j - 1) as nat);
        let m = (pow2(j) - 1) as nat;
        assert(m % 2 == 1);
        assert(m / 2 == pow2((j - 1) as nat) - 1);
        lemma_popcount_unfold(m);
    }
}

/// A number below `2^j` has at most `j` set bits, and fewer than `j` unless it is `2^j - 1`.
pub proof fn lemma_popcount_bound(b: nat, j: nat)
    requires
        b < pow2(j),
    ensures
        popcount(b) <= j,
        b + 1 < pow2(j) ==> popcount(b) < j,
    decreases j,
{
    lemma_pow2_zero_one();
    if j == 0 {
        assert(b == 0);
    } else {
        lemma_pow2_unfold(j);
        lemma_popcount_bound(b / 2, (j - 1) as nat);
        lemma_popcount_unfold(b);
        if b + 1 < pow2(j) && b % 2 == 1 {
            assert(b / 2 + 1 < pow2((j - 1) as nat));
        }
    }
}

/// Only zero has no set bits.
pub proof fn lemma_popcount_zero(b: nat)
    ensures
        popcount(b) == 0 <==> b == 0,
    decreases b,
{
    if b > 0 {
        lemma_popcount_unfold(b);
        lemma_popcount_zero(b / 2);
    }
}

/// An odd number has one more set bit than its even predecessor.
pub proof fn lemma_popcount_odd(k: nat)
    requires
        k % 2 == 1,
    ensures
        popcount(k) == popcount((k - 1) as nat) + 1,
{
    lemma_popcount_unfold(k);
    lemma_popcount_unfold((k - 1) as nat);
    assert(((k - 1) as nat) / 2 == k / 2);
}

/// `lowest_bit` divides a positive number and leaves an odd quotient.
pub proof fn lemma_lowest_bit(x: nat)
    requires
        x > 0,
    ensures
        lowest_bit(x) > 0,
        x % lowest_bit(x) == 0,
        (x / lowest_bit(x)) % 2 == 1,
    decreases x,
{
    lemma_pow2_zero_one();
    lemma_pow2_pos(trailing_zeros(x));
    if x % 2 == 0 {
        lemma_lowest_bit(x / 2);
        let e = trailing_zeros(x / 2);
        lemma_pow2_unfold(e + 1);
        let c = pow2(e);
        assert(trailing_zeros(x) == e + 1);
        let h = x / 2;
        assert(h == c * (h / c)) by (nonlinear_arith)
            requires
                c > 0,
                h % c == 0,
        ;
        assert(x == (2 * c) * (h / c)) by (nonlinear_arith)
            requires
                x == 2 * h,
                h == c * (h / c),
        ;
        vstd::arithmetic::div_mod::lemma_div_by_multiple((h / c) as int, (2 * c) as int);
        vstd::arithmetic::div_mod::lemma_mod_multiples_basic((h / c) as int, (2 * c) as int);
        assert((h / c) * (2 * c) == (2 * c) * (h / c)) by (nonlinear_arith);
        assert(lowest_bit(x) == 2 * c);
        assert(x / lowest_bit(x) == h / c);
    } else {
        assert(trailing_zeros(x) == 0);
        assert(lowest_bit(x) == 1);
        assert(x / 1 == x);
    }
}

/// A power of two that divides `x` with odd quotient is its lowest bit.
pub proof fn lemma_lowest_bit_unique(x: nat, e: nat)
    requires
        x % pow2(e) == 0,
        (x / pow2(e)) % 2 == 1,
    ensures
        trailing_zeros(x) == e,
        lowest_bit(x) == pow2(e),
    decreases e,
{
    lemma_pow2_zero_one();
    lemma_pow2_pos(e);
    if e == 0 {
        assert(x / 1 == x);
        assert(x > 0);
    } else {
        lemma_pow2_unfold(e);
        let p = pow2((e - 1) as nat);
        lemma_pow2_pos((e - 1) as nat);
        let q = x / pow2(e);
        assert(x == q * pow2(e)) by (nonlinear_arith)
            requires
                pow2(e) > 0,
                x % pow2(e) == 0,
                q == x / pow2(e),
        ;
        assert(x == 2 * (q * p)) by (nonlinear_arith)
            requires
                x == q * pow2(e),
                pow2(e) == 2 * p,
        ;
        assert(x > 0) by (nonlinear_arith)
            requires
                x == 2 * (q * p),
                q % 2 == 1,
                p > 0,
        ;
        assert(x % 2 == 0);
        let h = x / 2;
        assert(h == q * p);
        vstd::arithmetic::div_mod::lemma_div_by_multiple(q as int, p as int);
        vstd::arithmetic::div_mod::lemma_mod_multiples_basic(q as int, p as int);
        lemma_lowest_bit_unique(h, (e - 1) as nat);
    }
}


/// The shape of a positive number seen by Gosper's step: `x = d * (k - 1) + c * (2^q - 1)`
/// with `c = 2^p` its lowest bit, `d = 2^(p + q)` the lowest bit of `x + c`, and `k` odd.
pub proof fn lemma_gosper_shape(x: nat) -> (res: (nat, nat, nat))
    requires
        x > 0,
    ensures
        ({
            let (p, q, k) = res;
            &&& q >= 1
            &&& k % 2 == 1
            &&& lowest_bit(x) == pow2(p)
            &&& lowest_bit(x + pow2(p)) == pow2(p + q)
            &&& pow2(p + q) == pow2(p) * pow2(q)
            &&& x == pow2(p + q) * ((k - 1) as nat) + pow2(p) * ((pow2(q) - 1) as nat)
            &&& x + pow2(p) == pow2(p + q) * k
        }),
{
    lemma_lowest_bit(x);
    let p = trailing_zeros(x);
    let c = pow2(p);
    let m = x / c;
    assert(x == c * m) by (nonlinear_arith)
        requires
            c > 0,
            x % c == 0,
            m == x / c,
    ;
    lemma_lowest_bit(m + 1);
    let q = trailing_zeros(m + 1);
    let e = pow2(q);
    let k = (m + 1) / e;
    assert(m + 1 == e * k) by (nonlinear_arith)
        requires
            e > 0,
            (m + 1) % e == 0,
            k == (m + 1) / e,
    ;
    if q == 0 {
        lemma_pow2_zero_one();
        assert((m + 1) / 1 == m + 1);
        assert(false);
    }
    lemma_pow2_adds(p, q);
    lemma_pow2_pos(p);
    lemma_pow2_pos(q);
    let d = pow2(p + q);
    assert(x + c == d * k) by (nonlinear_arith)
        requires
            x == c * m,
            m + 1 == e * k,
            d == c * e,
    ;
    assert(k >= 1);
    assert(x == d * ((k - 1) as nat) + c * ((e - 1) as nat)) by (nonlinear_arith)
        requires
            x + c == d * k,
            d == c * e,
            k >= 1,
            e >= 1,
    ;
    vstd::arithmetic::div_mod::lemma_div_by_multiple(k as int, d as int);
    vstd::arithmetic::div_mod::lemma_mod_multiples_basic(k as int, d as int);
    assert(d * k == k * d) by (nonlinear_arith);
    lemma_lowest_bit_unique(x + c, p + q);
    (p, q, k)
}

/// Gosper's step gives the next number with the same popcount: it is larger,
/// keeps the popcount, and no number strictly between has that popcount.
pub proof fn lemma_next_same_popcount(x: nat)
    requires
        x > 0,
    ensures
        next_same_popcount(x) > x,
        x + lowest_bit(x) <= next_same_popcount(x),
        popcount(next_same_popcount(x)) == popcount(x),
        forall|z: nat| x < z < next_same_popcount(x) ==> popcount(z) != popcount(x),
{
    let (p, q, k) = lemma_gosper_shape(x);
    let c = pow2(p);
    let d = pow2(p + q);
    let e = pow2(q);
    lemma_pow2_pos(p);
    lemma_pow2_pos(q);
    lemma_pow2_pos((q - 1) as nat);
    lemma_pow2_unfold(q);
    let h = pow2((q - 1) as nat);
    assert(d / (2 * c) == h) by (nonlinear_arith)
        requires
            d == c * e,
            e == 2 * h,
            c > 0,
    ;
    let y = next_same_popcount(x);
    assert(y == d * k + ((h - 1) as nat));
    assert(d >= 2 * c) by (nonlinear_arith)
        requires
            d == c * e,
            e >= 2,
            c > 0,
    ;
    // popcount of x
    let low = (e - 1) as nat;
    assert(c * low < d) by (nonlinear_arith)
        requires
            d == c * e,
            low + 1 == e,
            c > 0,
    ;
    lemma_popcount_split((k - 1) as nat, p + q, c * low);
    lemma_popcount_split(low, p, 0);
    assert(low * c + 0 == c * low) by (nonlinear_arith);
    lemma_popcount_ones(q);
    lemma_popcount_zero(0);
    assert(popcount(x) == popcount((k - 1) as nat) + q) by {
        assert(x == ((k - 1) as nat) * d + c * low) by (nonlinear_arith)
            requires
                x == d * ((k - 1) as nat) + c * low,
        ;
    }
    // popcount of y
    assert(((h - 1) as nat) < d);
    lemma_popcount_split(k, p + q, (h - 1) as nat);
    assert(y == k * d + ((h - 1) as nat)) by (nonlinear_arith)
        requires
            y == d * k + ((h - 1) as nat),
    ;
    lemma_popcount_ones((q - 1) as nat);
    lemma_popcount_odd(k);
    assert(popcount(y) == popcount(x));
    assert forall|z: nat| x < z < y implies popcount(z) != popcount(x) by {
        if z < d * k {
            let s = (z - d * ((k - 1) as nat)) as nat;
            assert(d * k == d * ((k - 1) as nat) + d) by (nonlinear_arith)
                requires
                    k >= 1,
            ;
            assert(c * low < s < d);
            let a = s / c;
            let b = s % c;
            assert(s == a * c + b) by (nonlinear_arith)
                requires
                    c > 0,
                    a == s / c,
                    b == s % c,
            ;
            assert(a == low) by (nonlinear_arith)
                requires
                    s == a * c + b,
                    0 <= b < c,
                    c * low < s,
                    s < d,
                    d == c * e,
                    low + 1 == e,
            ;
            assert(b > 0) by (nonlinear_arith)
                requires
                    s == a * c + b,
                    a == low,
                    c * low < s,
            ;
            lemma_popcount_split(a, p, b);
            lemma_popcount_zero(b);
            lemma_popcount_split((k - 1) as nat, p + q, s);
            assert(z == ((k - 1) as nat) * d + s) by (nonlinear_arith)
                requires
                    s == z - d * ((k - 1) as nat),
            ;
        } else {
            let t = (z - d * k) as nat;
            assert(t + 1 < h);
            lemma_popcount_bound(t, (q - 1) as nat);
            lemma_popcount_split(k, p + q, t);
            assert(z == k * d + t) by (nonlinear_arith)
                requires
                    t == z - d * k,
                    z >= d * k,
            ;
        }
    }
}


/// Whether bit `i` of `x` is set, as a single-bit number.
pub proof fn lemma_bit_split(x: nat, i: nat)
    ensures
        x % pow2(i + 1) == ((x / pow2(i)) % 2) * pow2(i) + x % pow2(i),
        popcount(x % pow2(i + 1)) == popcount(x % pow2(i)) + (if bit_set(x, i) { 1nat } else { 0nat }),
{
    lemma_pow2_pos(i);
    lemma_pow2_unfold(i + 1);
    assert(pow2(i + 1) == pow2(i) * 2);
    vstd::arithmetic::div_mod::lemma_breakdown(x as int, pow2(i) as int, 2);
    let b = (x / pow2(i)) % 2;
    assert(x % pow2(i + 1) == b * pow2(i) + x % pow2(i)) by (nonlinear_arith)
        requires
            x % (pow2(i) * 2) == pow2(i) * ((x / pow2(i)) % 2) + x % pow2(i),
            pow2(i + 1) == pow2(i) * 2,
            b == (x / pow2(i)) % 2,
    ;
    vstd::arithmetic::div_mod::lemma_mod_pos_bound(x as int, pow2(i) as int);
    lemma_popcount_split(b, i, x % pow2(i));
    lemma_popcount_unfold(b);
    lemma_popcount_unfold(b / 2);
}

/// Numbers below `2^n` are their own remainder.
pub proof fn lemma_mod_below(x: nat, n: nat)
    requires
        x < pow2(n),
    ensures
        x % pow2(n) == x,
{
    vstd::arithmetic::div_mod::lemma_small_mod(x, pow2(n));
}

} // verus!
