//! The order in which erosion droplets are dropped.
//!
//! The cells of the cube are numbered in their linear order. The first
//! droplet falls on a random cell; each further one falls `stride` cells
//! after the one before, counted round the end. With a stride that has no
//! divisor in common with the number of cells, every cell is hit once before
//! any is hit again.

use vstd::prelude::*;

verus! {

/// `d` divides `n`: `n` is a multiple of `d`.
pub open spec fn divides(d: int, n: int) -> bool {
    exists|k: int| n == #[trigger] (d * k)
}

/// `g` is the greatest common divisor of `a` and `b`: it divides both, every
/// common divisor divides it, and it is not negative. Of `0` and `0` it is `0`.
pub open spec fn is_gcd(g: int, a: int, b: int) -> bool {
    &&& g >= 0
    &&& divides(g, a)
    &&& divides(g, b)
    &&& forall|d: int| divides(d, a) && divides(d, b) ==> #[trigger] divides(d, g)
}

/// `a` and `b` have no common divisor but `1` and `-1`.
pub open spec fn coprime(a: int, b: int) -> bool {
    is_gcd(1, a, b)
}

/// The cell that is hit `k` drops after the cell `start`.
pub open spec fn drop_index(start: int, stride: int, k: int, modulo: int) -> int {
    (start + k * stride) % modulo
}

/// One of the first `modulo` drops hits `cell`.
pub open spec fn is_hit(start: int, stride: int, modulo: int, cell: int) -> bool {
    exists|k: int| 0 <= k < modulo && #[trigger] drop_index(start, stride, k, modulo) == cell
}

/// A divisor of two numbers divides each sum of the first and a multiple of
/// the second.
pub proof fn lemma_divides_combination(d: int, x: int, y: int, m: int)
    requires
        divides(d, x),
        divides(d, y),
    ensures
        divides(d, x + m * y),
{
    let k1 = choose|k: int| x == #[trigger] (d * k);
    let k2 = choose|k: int| y == #[trigger] (d * k);
    assert(x + m * y == d * (k1 + m * k2)) by (nonlinear_arith)
        requires
            x == d * k1,
            y == d * k2,
    ;
}

/// Every number divides itself and zero.
pub proof fn lemma_divides_self(d: int)
    ensures
        divides(d, d),
        divides(d, 0),
{
    assert(d == d * 1);
    assert(0 == d * 0);
}

/// A positive number is divided only by numbers that are not larger.
pub proof fn lemma_divisor_bound(d: int, n: int)
    requires
        n > 0,
        divides(d, n),
    ensures
        -n <= d <= n,
        d != 0,
{
    let k = choose|k: int| n == #[trigger] (d * k);
    assert(-n <= d <= n && d != 0) by (nonlinear_arith)
        requires
            n == d * k,
            n > 0,
    ;
}

/// Two numbers have just one greatest common divisor.
pub proof fn lemma_gcd_unique(g: int, h: int, a: int, b: int)
    requires
        is_gcd(g, a, b),
        is_gcd(h, a, b),
    ensures
        g == h,
{
    assert(divides(g, h));
    assert(divides(h, g));
    let k = choose|k: int| h == #[trigger] (g * k);
    let m = choose|m: int| g == #[trigger] (h * m);
    assert(g == h) by (nonlinear_arith)
        requires
            h == g * k,
            g == h * m,
            g >= 0,
            h >= 0,
    ;
}

/// The greatest common divisor of two numbers.
pub fn gcd(a: usize, b: usize) -> (g: usize)
    ensures
        is_gcd(g as int, a as int, b as int),
{
    let mut x = a;
    let mut y = b;
    while y != 0
        invariant
            forall|d: int|
                divides(d, x as int) && divides(d, y as int) <==> divides(d, a as int) && divides(
                    d,
                    b as int,
                ),
        decreases y,
    {
        let rest = x % y;
        proof {
            let q = (x / y) as int;
            assert(x == q * y + rest) by (nonlinear_arith)
                requires
                    q == x / y,
                    rest == x % y,
                    y > 0,
            ;
            assert forall|d: int|
                divides(d, y as int) && divides(d, rest as int) <==> divides(d, a as int)
                    && divides(d, b as int) by {
                if divides(d, y as int) && divides(d, rest as int) {
                    lemma_divides_combination(d, rest as int, y as int, q);
                }
                if divides(d, x as int) && divides(d, y as int) {
                    lemma_divides_combination(d, x as int, y as int, -q);
                    assert(x + (-q) * y == rest) by (nonlinear_arith)
                        requires
                            x == q * y + rest,
                    ;
                }
            }
        }
        x = y;
        y = rest;
    }
    proof {
        lemma_divides_self(x as int);
        assert forall|d: int| divides(d, a as int) && divides(d, b as int) implies #[trigger] divides(
            d,
            x as int,
        ) by {}
    }
    x
}

/// Some sum of a multiple of `a` and a multiple of `b` divides both `a` and
/// `b`. The two factors are returned.
pub proof fn lemma_bezout(a: nat, b: nat) -> (f: (int, int))
    ensures
        divides(a * f.0 + b * f.1, a as int),
        divides(a * f.0 + b * f.1, b as int),
    decreases b,
{
    if b == 0 {
        lemma_divides_self(a as int);
        assert(a * 1 + b * 0 == a) by (nonlinear_arith)
            requires
                b == 0,
        ;
        (1, 0)
    } else {
        let q = (a / b) as int;
        let r = a % b;
        assert(a == q * b + r) by (nonlinear_arith)
            requires
                q == a / b,
                r == a % b,
                b > 0,
        ;
        let (x, y) = lemma_bezout(b, r);
        let g = b * x + r * y;
        assert(a * y + b * (x - q * y) == g) by (nonlinear_arith)
            requires
                a == q * b + r,
                g == b * x + r * y,
        ;
        lemma_divides_combination(g, r as int, b as int, q);
        assert(r + q * b == a);
        (y, x - q * y)
    }
}

/// If `n` divides a product and has no divisor in common with one factor, it
/// divides the other.
pub proof fn lemma_coprime_cancels(n: int, s: int, t: int)
    requires
        n > 0,
        s >= 0,
        coprime(s, n),
        divides(n, t * s),
    ensures
        divides(n, t),
{
    let (x, y) = lemma_bezout(s as nat, n as nat);
    let g = s * x + n * y;
    assert(divides(g, 1));
    let u = choose|u: int| 1 == #[trigger] (g * u);
    // 1 == (s * x + n * y) * u, so t == (t * s) * (x * u) + n * (t * y * u)
    let k = choose|k: int| t * s == #[trigger] (n * k);
    assert(t == n * (k * x * u + t * y * u)) by (nonlinear_arith)
        requires
            1 == (s * x + n * y) * u,
            t * s == n * k,
    ;
}

/// Stride coverage, first half: with a stride that has no divisor in common
/// with the number of cells, no cell is hit twice within as many drops as
/// there are cells.
pub proof fn lemma_stride_never_repeats(start: int, stride: int, modulo: int, j: int, k: int)
    requires
        modulo > 0,
        stride >= 0,
        coprime(stride, modulo),
        0 <= j < k < modulo,
    ensures
        drop_index(start, stride, j, modulo) != drop_index(start, stride, k, modulo),
        0 <= drop_index(start, stride, j, modulo) < modulo,
{
    let a = start + j * stride;
    let b = start + k * stride;
    if a % modulo == b % modulo {
        vstd::arithmetic::div_mod::lemma_fundamental_div_mod(a, modulo);
        vstd::arithmetic::div_mod::lemma_fundamental_div_mod(b, modulo);
        let m = b / modulo - a / modulo;
        assert((k - j) * stride == modulo * m) by (nonlinear_arith)
            requires
                a == modulo * (a / modulo) + a % modulo,
                b == modulo * (b / modulo) + b % modulo,
                a % modulo == b % modulo,
                a == start + j * stride,
                b == start + k * stride,
                m == b / modulo - a / modulo,
        ;
        assert(divides(modulo, (k - j) * stride));
        lemma_coprime_cancels(modulo, stride, k - j);
        lemma_divisor_bound(modulo, k - j);
    }
}

/// Stride coverage: with a stride that has no divisor in common with the
/// number of cells, the first `modulo` drops hit every cell, each once.
pub proof fn lemma_stride_covers(start: int, stride: int, modulo: int)
    requires
        modulo > 0,
        stride >= 0,
        coprime(stride, modulo),
    ensures
        forall|j: int, k: int|
            0 <= j < k < modulo ==> drop_index(start, stride, j, modulo) != drop_index(
                start,
                stride,
                k,
                modulo,
            ),
        forall|cell: int| 0 <= cell < modulo ==> #[trigger] is_hit(start, stride, modulo, cell),
{
    assert forall|j: int, k: int| 0 <= j < k < modulo implies drop_index(start, stride, j, modulo)
        != drop_index(start, stride, k, modulo) by {
        lemma_stride_never_repeats(start, stride, modulo, j, k);
    }
    let range = vstd::set_lib::set_int_range(0, modulo);
    let hit = |k: int| drop_index(start, stride, k, modulo);
    let cells = range.map(hit);
    vstd::set_lib::lemma_int_range(0, modulo);
    assert(vstd::relations::injective_on(hit, range)) by {
        assert forall|j: int, k: int|
            range.contains(j) && range.contains(k) && #[trigger] hit(j) == #[trigger] hit(
                k,
            ) implies j == k by {
            if j < k {
                lemma_stride_never_repeats(start, stride, modulo, j, k);
            } else if k < j {
                lemma_stride_never_repeats(start, stride, modulo, k, j);
            }
        }
    }
    vstd::set_lib::lemma_map_size(range, cells, hit);
    assert(cells.subset_of(range)) by {
        assert forall|cell: int| cells.contains(cell) implies range.contains(cell) by {
            let k = choose|k: int| range.contains(k) && hit(k) == cell;
            assert(0 <= (start + k * stride) % modulo < modulo);
        }
    }
    vstd::set_lib::lemma_subset_equality(cells, range);
    assert forall|cell: int| 0 <= cell < modulo implies #[trigger] is_hit(
        start,
        stride,
        modulo,
        cell,
    ) by {
        assert(range.contains(cell));
        assert(cells.contains(cell));
        let k = choose|k: int| range.contains(k) && hit(k) == cell;
        assert(drop_index(start, stride, k, modulo) == cell);
    }
}

/// `stride` is the number nearest to `ideal` that has no divisor in common
/// with `modulo`; of two that are equally near, the larger.
pub open spec fn nearest_coprime(stride: int, ideal: int, modulo: int) -> bool {
    let off = vstd::math::abs(stride - ideal);
    &&& stride >= 0
    &&& coprime(stride, modulo)
    &&& forall|c: int|
        0 <= c && vstd::math::abs(c - ideal) < off ==> !#[trigger] coprime(c, modulo)
    &&& stride < ideal ==> !coprime(ideal + off, modulo)
}

/// `t` is the whole part of `m` times the golden ratio `(1 + sqrt 5) / 2`:
/// the largest `t` with `2 t - m <= m * sqrt 5`.
pub open spec fn golden_multiple(t: int, m: int) -> bool {
    &&& 2 * t >= m
    &&& (2 * t - m) * (2 * t - m) <= 5 * (m * m)
    &&& 5 * (m * m) < (2 * t + 2 - m) * (2 * t + 2 - m)
}

/// A number has one golden multiple.
pub proof fn lemma_golden_multiple_unique(s: int, t: int, m: int)
    requires
        golden_multiple(s, m),
        golden_multiple(t, m),
    ensures
        s == t,
{
    let u = 2 * s - m;
    let v = 2 * t - m;
    if s < t {
        assert((u + 2) * (u + 2) <= v * v) by (nonlinear_arith)
            requires
                0 <= u + 2 <= v,
        ;
    }
    if t < s {
        assert((v + 2) * (v + 2) <= u * u) by (nonlinear_arith)
            requires
                0 <= v + 2 <= u,
        ;
    }
}

/// Only one number is the nearest to `ideal` without a common divisor with
/// `modulo`.
pub proof fn lemma_nearest_coprime_unique(a: int, b: int, ideal: int, modulo: int)
    requires
        nearest_coprime(a, ideal, modulo),
        nearest_coprime(b, ideal, modulo),
    ensures
        a == b,
{
    let off_a = vstd::math::abs(a - ideal);
    let off_b = vstd::math::abs(b - ideal);
    if off_a < off_b {
        assert(!coprime(a, modulo));
    }
    if off_b < off_a {
        assert(!coprime(b, modulo));
    }
}

/// Among any `modulo` numbers in a row there is one that has no divisor in
/// common with `modulo`.
pub proof fn lemma_coprime_within(ideal: int, modulo: int) -> (c: int)
    requires
        modulo > 0,
    ensures
        ideal <= c < ideal + modulo,
        coprime(c, modulo),
{
    let c = if modulo == 1 {
        ideal
    } else {
        ideal + (1 - ideal) % modulo
    };
    assert(1 == 1 * 1);
    assert(c == 1 * c);
    assert(modulo == 1 * modulo);
    assert(divides(1, c));
    assert(divides(1, modulo));
    if modulo == 1 {
        assert forall|d: int| divides(d, c) && divides(d, modulo) implies #[trigger] divides(
            d,
            1,
        ) by {}
    } else {
        let r = (1 - ideal) % modulo;
        vstd::arithmetic::div_mod::lemma_fundamental_div_mod(1 - ideal, modulo);
        let q = -((1 - ideal) / modulo);
        assert(c == q * modulo + 1) by (nonlinear_arith)
            requires
                1 - ideal == modulo * ((1 - ideal) / modulo) + r,
                c == ideal + r,
                q == -((1 - ideal) / modulo),
        ;
        assert forall|d: int| divides(d, c) && divides(d, modulo) implies #[trigger] divides(
            d,
            1,
        ) by {
            lemma_divides_combination(d, c, modulo, -q);
            assert(c + (-q) * modulo == 1) by (nonlinear_arith)
                requires
                    c == q * modulo + 1,
            ;
        }
    }
    c
}

/// Tells whether `a` and `b` have no common divisor but `1`.
pub fn is_coprime(a: usize, b: usize) -> (r: bool)
    ensures
        r == coprime(a as int, b as int),
{
    let g = gcd(a, b);
    proof {
        if coprime(a as int, b as int) {
            lemma_gcd_unique(g as int, 1, a as int, b as int);
        }
    }
    g == 1
}

/// Searches outward from `ideal`, above first and then below, for the
/// nearest number that has no divisor in common with `modulo`.
pub fn find_stride(ideal: usize, modulo: usize) -> (stride: usize)
    requires
        modulo > 0,
        ideal + modulo <= usize::MAX,
    ensures
        nearest_coprime(stride as int, ideal as int, modulo as int),
{
    let mut offset: usize = 0;
    while offset < modulo
        invariant
            modulo > 0,
            ideal + modulo <= usize::MAX,
            offset <= modulo,
            forall|c: int|
                0 <= c && vstd::math::abs(c - ideal) < offset ==> !#[trigger] coprime(
                    c,
                    modulo as int,
                ),
        decreases modulo - offset,
    {
        let above = ideal + offset;
        if is_coprime(above, modulo) {
            return above;
        }
        if offset <= ideal {
            let below = ideal - offset;
            if is_coprime(below, modulo) {
                return below;
            }
        }
        offset += 1;
    }
    proof {
        let c = lemma_coprime_within(ideal as int, modulo as int);
        assert(vstd::math::abs(c - ideal) < offset);
    }
    ideal
}

/// The cell that is hit after the cell `idrop`.
pub fn next_drop(idrop: usize, stride: usize, modulo: usize) -> (next: usize)
    requires
        modulo > 0,
    ensures
        next == (idrop + stride) % (modulo as int),
        next < modulo,
{
    let sum: u128 = idrop as u128 + stride as u128;
    (sum % (modulo as u128)) as usize
}

/// Dropping one stride further is the next drop of the sequence.
pub proof fn lemma_next_drop(start: int, stride: int, k: int, modulo: int)
    requires
        modulo > 0,
    ensures
        (drop_index(start, stride, k, modulo) + stride) % modulo == drop_index(
            start,
            stride,
            k + 1,
            modulo,
        ),
{
    let a = start + k * stride;
    vstd::arithmetic::div_mod::lemma_add_mod_noop(a, stride, modulo);
    vstd::arithmetic::div_mod::lemma_add_mod_noop(a % modulo, stride, modulo);
    vstd::arithmetic::div_mod::lemma_mod_twice(a, modulo);
    assert(a + stride == start + (k + 1) * stride) by (nonlinear_arith)
        requires
            a == start + k * stride,
    ;
}

/// The largest `s` with `s * s <= n`.
pub fn square_root(n: u128) -> (s: u128)
    ensures
        s * s <= n < (s + 1) * (s + 1),
{
    let mut low: u128 = 0;
    let mut high: u128 = 0x1_0000_0000_0000_0000;
    assert(0x1_0000_0000_0000_0000 * 0x1_0000_0000_0000_0000 > u128::MAX) by (nonlinear_arith);
    while high - low > 1
        invariant
            low < high <= 0x1_0000_0000_0000_0000,
            low * low <= n < high * high,
        decreases high - low,
    {
        let middle = low + (high - low) / 2;
        assert(middle * middle <= 0xffff_ffff_ffff_ffff * 0xffff_ffff_ffff_ffff)
            by (nonlinear_arith)
            requires
                0 <= middle <= 0xffff_ffff_ffff_ffff,
        ;
        if middle * middle <= n {
            low = middle;
        } else {
            high = middle;
        }
    }
    low
}

/// The whole part of `modulo` times the golden ratio.
pub fn golden_ratio_multiple(modulo: usize) -> (t: usize)
    requires
        3 * modulo <= usize::MAX,
        5 * (modulo * modulo) <= u128::MAX,
    ensures
        golden_multiple(t as int, modulo as int),
        t <= 2 * modulo,
{
    let m = modulo as u128;
    assert(m * m == modulo * modulo);
    let s = square_root(5 * (m * m));
    proof {
        // s * s <= 5 m m <= 9 m m, so s <= 3 m
        if s > 3 * m {
            assert(s * s > 5 * (m * m)) by (nonlinear_arith)
                requires
                    s > 3 * m,
                    m >= 0,
            ;
        }
        if s < m {
            assert((s + 1) * (s + 1) <= 5 * (m * m)) by (nonlinear_arith)
                requires
                    0 <= s < m,
            ;
        }
    }
    let t = (m + s) / 2;
    proof {
        let d = 2 * t - m;
        assert(d == s || d == s - 1);
        assert(d * d <= s * s) by (nonlinear_arith)
            requires
                0 <= d <= s,
        ;
        assert((d + 2) * (d + 2) >= (s + 1) * (s + 1)) by (nonlinear_arith)
            requires
                d + 2 >= s + 1,
                s >= 0,
        ;
    }
    t as usize
}

/// The stride of the erosion for a cube of `modulo` cells: the number
/// nearest to `modulo` times the golden ratio that has no divisor in common
/// with `modulo`.
pub fn erosion_stride(modulo: usize) -> (stride: usize)
    requires
        modulo > 0,
        3 * modulo <= usize::MAX,
        5 * (modulo * modulo) <= u128::MAX,
    ensures
        coprime(stride as int, modulo as int),
        exists|ideal: int|
            #[trigger] golden_multiple(ideal, modulo as int) && nearest_coprime(
                stride as int,
                ideal,
                modulo as int,
            ),
{
    let ideal = golden_ratio_multiple(modulo);
    find_stride(ideal, modulo)
}

} // verus!
