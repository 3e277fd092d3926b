//! The search kernel: all cell offsets within a radius, nearest first.
//!
//! Distances are kept squared, so that they stay whole numbers. Sorting by
//! the squared distance is sorting by the distance.

use vstd::prelude::*;

verus! {

/// An offset from a cell, with the square of its length.
#[derive(Debug, Clone, Copy, PartialEq, Eq, Structural)]
pub struct KernelEntry {
    pub dx: isize,
    pub dy: isize,
    /// `dx * dx + dy * dy`
    pub distance_squared: usize,
}

/// The offset `(dx, dy)` is shorter than `radius`.
pub open spec fn within_radius(dx: int, dy: int, radius: int) -> bool {
    dx * dx + dy * dy < radius * radius
}

/// `a` comes before `b` in a kernel: the shorter offset first; of two
/// offsets of the same length the one in the upper row, and in the same row
/// the one further left.
pub open spec fn comes_before(a: KernelEntry, b: KernelEntry) -> bool {
    a.distance_squared < b.distance_squared || (a.distance_squared == b.distance_squared && (a.dy
        < b.dy || (a.dy == b.dy && a.dx < b.dx)))
}

/// `entries` holds the offset `(dx, dy)`.
pub open spec fn has_offset(entries: Seq<KernelEntry>, dx: int, dy: int) -> bool {
    exists|i: int| 0 <= i < entries.len() && (#[trigger] entries[i]).dx == dx && entries[i].dy == dy
}

/// Every entry is an offset shorter than `radius` and carries the square of
/// its own length.
pub open spec fn entries_sound(entries: Seq<KernelEntry>, radius: int) -> bool {
    forall|i: int|
        0 <= i < entries.len() ==> (#[trigger] entries[i]).distance_squared == entries[i].dx
            * entries[i].dx + entries[i].dy * entries[i].dy && within_radius(
            entries[i].dx as int,
            entries[i].dy as int,
            radius,
        )
}

/// The entries are in kernel order.
pub open spec fn entries_sorted(entries: Seq<KernelEntry>) -> bool {
    forall|i: int, j: int|
        0 <= i < j < entries.len() ==> comes_before(#[trigger] entries[i], #[trigger] entries[j])
}

/// `entries` is the kernel of the given radius: it holds exactly the offsets
/// shorter than the radius, each once, in kernel order.
pub open spec fn is_kernel(entries: Seq<KernelEntry>, radius: int) -> bool {
    &&& entries_sound(entries, radius)
    &&& entries_sorted(entries)
    &&& forall|dx: int, dy: int|
        within_radius(dx, dy, radius) ==> #[trigger] has_offset(entries, dx, dy)
}

/// As far as two kernels of the same radius both reach, they hold the same
/// entries.
pub proof fn lemma_kernels_agree(a: Seq<KernelEntry>, b: Seq<KernelEntry>, radius: int, i: int)
    requires
        is_kernel(a, radius),
        is_kernel(b, radius),
        0 <= i < a.len(),
        0 <= i < b.len(),
    ensures
        a[i] == b[i],
    decreases i,
{
    assert(has_offset(b, a[i].dx as int, a[i].dy as int));
    let k = choose|k: int|
        0 <= k < b.len() && (#[trigger] b[k]).dx == a[i].dx as int && b[k].dy == a[i].dy as int;
    assert(has_offset(a, b[i].dx as int, b[i].dy as int));
    let m = choose|m: int|
        0 <= m < a.len() && (#[trigger] a[m]).dx == b[i].dx as int && a[m].dy == b[i].dy as int;
    assert(b[k] == a[i]);
    assert(a[m] == b[i]);
    if k < i {
        lemma_kernels_agree(a, b, radius, k);
        assert(comes_before(a[k], a[i]));
    }
    if m < i {
        lemma_kernels_agree(a, b, radius, m);
        assert(comes_before(b[m], b[i]));
    }
    if k > i {
        assert(comes_before(b[i], b[k]));
        if m > i {
            assert(comes_before(a[i], a[m]));
        }
    }
}

/// There is one kernel of a radius.
pub proof fn lemma_kernel_unique(a: Seq<KernelEntry>, b: Seq<KernelEntry>, radius: int)
    requires
        is_kernel(a, radius),
        is_kernel(b, radius),
    ensures
        a == b,
{
    if a.len() < b.len() {
        lemma_longer_kernel_repeats(a, b, radius);
    }
    if b.len() < a.len() {
        lemma_longer_kernel_repeats(b, a, radius);
    }
    assert forall|i: int| 0 <= i < a.len() implies a[i] == b[i] by {
        lemma_kernels_agree(a, b, radius, i);
    }
    assert(a =~= b);
}

/// Of two kernels of the same radius none is longer than the other.
proof fn lemma_longer_kernel_repeats(short: Seq<KernelEntry>, long: Seq<KernelEntry>, radius: int)
    requires
        is_kernel(short, radius),
        is_kernel(long, radius),
    ensures
        long.len() <= short.len(),
{
    if short.len() < long.len() {
        let extra = long[short.len() as int];
        assert(has_offset(short, extra.dx as int, extra.dy as int));
        let k = choose|k: int|
            0 <= k < short.len() && (#[trigger] short[k]).dx == extra.dx as int && short[k].dy
                == extra.dy as int;
        lemma_kernels_agree(short, long, radius, k);
        assert(comes_before(long[k], extra));
    }
}

/// A number whose square is smaller than the square of a bound is smaller
/// than the bound.
pub proof fn lemma_smaller_square(a: int, b: int)
    requires
        0 <= b,
        a * a < b * b,
    ensures
        -b < a < b,
{
    if a >= b {
        assert(a * a >= b * b) by (nonlinear_arith)
            requires
                a >= b,
                b >= 0,
        ;
    }
    if a <= -b {
        assert(a * a >= b * b) by (nonlinear_arith)
            requires
                a <= -b,
                b >= 0,
        ;
    }
}

/// Two numbers with the same square are equal up to sign.
pub proof fn lemma_same_square(a: int, s: int)
    requires
        a * a == s * s,
    ensures
        a == s || a == -s,
{
    assert((a - s) * (a + s) == a * a - s * s) by (nonlinear_arith);
    assert(a - s == 0 || a + s == 0) by (nonlinear_arith)
        requires
            (a - s) * (a + s) == 0,
    ;
}

/// The largest `s` with `s * s <= n`, for `n` below the square of `bound`.
pub fn square_root_below(n: usize, bound: usize) -> (s: usize)
    requires
        n < bound * bound,
        bound * bound <= usize::MAX,
    ensures
        s * s <= n < (s + 1) * (s + 1),
        s < bound,
{
    let mut low: usize = 0;
    let mut high: usize = bound;
    assert(0 < bound) by (nonlinear_arith)
        requires
            0 <= n < bound * bound,
    ;
    while high - low > 1
        invariant
            low < high <= bound,
            low * low <= n < high * high,
            bound * bound <= usize::MAX,
        decreases high - low,
    {
        let middle = low + (high - low) / 2;
        assert(middle * middle < bound * bound) by (nonlinear_arith)
            requires
                0 <= middle < bound,
        ;
        if middle * middle <= n {
            low = middle;
        } else {
            high = middle;
        }
    }
    low
}

/// Lists the offsets shorter than `radius`, nearest first.
pub fn generate_kernel(radius: usize) -> (entries: Vec<KernelEntry>)
    requires
        radius * radius <= usize::MAX,
        radius <= isize::MAX,
    ensures
        is_kernel(entries@, radius as int),
{
    let mut entries: Vec<KernelEntry> = Vec::new();
    let limit = radius * radius;
    let reach = radius as isize;
    let mut d2: usize = 0;
    proof {
        assert forall|dx: int, dy: int| dx * dx + dy * dy < d2 implies #[trigger] has_offset(
            entries@,
            dx,
            dy,
        ) by {
            assert(dx * dx >= 0 && dy * dy >= 0) by (nonlinear_arith);
        }
    }
    while d2 < limit
        invariant
            limit == radius * radius,
            limit <= usize::MAX,
            reach == radius,
            d2 <= limit,
            entries_sound(entries@, radius as int),
            entries_sorted(entries@),
            forall|i: int| 0 <= i < entries@.len() ==> (#[trigger] entries@[i]).distance_squared < d2,
            forall|dx: int, dy: int|
                dx * dx + dy * dy < d2 ==> #[trigger] has_offset(entries@, dx, dy),
        decreases limit - d2,
    {
        assert(radius > 0) by (nonlinear_arith)
            requires
                radius * radius > 0,
        ;
        let mut dy: isize = 1 - reach;
        proof {
            assert forall|dx: int, ey: int|
                dx * dx + ey * ey < d2 || (dx * dx + ey * ey == d2 && ey < dy)
                    implies #[trigger] has_offset(entries@, dx, ey) by {
                if dx * dx + ey * ey == d2 {
                    assert(dx * dx >= 0) by (nonlinear_arith);
                    lemma_smaller_square(ey, radius as int);
                }
            }
        }
        while dy < reach
            invariant
                limit == radius * radius,
                limit <= usize::MAX,
                reach == radius,
                radius > 0,
                d2 < limit,
                -reach < dy <= reach,
                entries_sound(entries@, radius as int),
                entries_sorted(entries@),
                forall|i: int|
                    0 <= i < entries@.len() ==> (#[trigger] entries@[i]).distance_squared < d2 || (
                    entries@[i].distance_squared == d2 && entries@[i].dy < dy),
                forall|dx: int, ey: int|
                    dx * dx + ey * ey < d2 || (dx * dx + ey * ey == d2 && ey < dy)
                        ==> #[trigger] has_offset(entries@, dx, ey),
            decreases reach - dy,
        {
            let height: usize = if dy < 0 {
                (-dy) as usize
            } else {
                dy as usize
            };
            assert(height * height < radius * radius && height * height == dy * dy)
                by (nonlinear_arith)
                requires
                    0 <= height < radius,
                    height == dy || height == -dy,
            ;
            let row = height * height;
            let ghost before = entries@;
            if row <= d2 {
                let rest = d2 - row;
                let s = square_root_below(rest, radius);
                if s * s == rest {
                    let left = KernelEntry { dx: -(s as isize), dy, distance_squared: d2 };
                    let right = KernelEntry { dx: s as isize, dy, distance_squared: d2 };
                    proof {
                        assert(left.dx * left.dx == s * s) by (nonlinear_arith)
                            requires
                                left.dx == -s,
                        ;
                        assert(right.dx * right.dx == s * s) by (nonlinear_arith)
                            requires
                                right.dx == s,
                        ;
                    }
                    if s > 0 {
                        entries.push(left);
                    }
                    entries.push(right);
                    proof {
                        assert forall|i: int| 0 <= i < before.len() implies entries@[i]
                            == before[i] by {}
                        assert(entries_sorted(entries@)) by {
                            assert forall|i: int, j: int|
                                0 <= i < j < entries@.len() implies comes_before(
                                #[trigger] entries@[i],
                                #[trigger] entries@[j],
                            ) by {
                                if j < before.len() {
                                    assert(comes_before(before[i], before[j]));
                                } else if i < before.len() {
                                    assert(entries@[i] == before[i]);
                                }
                            }
                        }
                        assert forall|dx: int, ey: int|
                            dx * dx + ey * ey < d2 || (dx * dx + ey * ey == d2 && ey < dy + 1)
                                implies #[trigger] has_offset(entries@, dx, ey) by {
                            if dx * dx + ey * ey == d2 && ey == dy {
                                assert(dx * dx == s * s);
                                lemma_same_square(dx, s as int);
                                if dx == s {
                                    assert(entries@[entries@.len() - 1] == right);
                                } else {
                                    assert(entries@[entries@.len() - 2] == left);
                                }
                            } else {
                                assert(has_offset(before, dx, ey));
                                let i = choose|i: int|
                                    0 <= i < before.len() && (#[trigger] before[i]).dx == dx
                                        && before[i].dy == ey;
                                assert(entries@[i] == before[i]);
                            }
                        }
                    }
                } else {
                    proof {
                        assert forall|dx: int, ey: int|
                            dx * dx + ey * ey < d2 || (dx * dx + ey * ey == d2 && ey < dy + 1)
                                implies #[trigger] has_offset(entries@, dx, ey) by {
                            if dx * dx + ey * ey == d2 && ey == dy {
                                lemma_no_root(dx, s as int, rest as int);
                            }
                        }
                    }
                }
            } else {
                proof {
                    assert forall|dx: int, ey: int|
                        dx * dx + ey * ey < d2 || (dx * dx + ey * ey == d2 && ey < dy + 1)
                            implies #[trigger] has_offset(entries@, dx, ey) by {
                        if dx * dx + ey * ey == d2 && ey == dy {
                            assert(dx * dx >= 0) by (nonlinear_arith);
                        }
                    }
                }
            }
            dy += 1;
        }
        proof {
            assert forall|dx: int, ey: int| dx * dx + ey * ey < d2 + 1 implies #[trigger] has_offset(
                entries@,
                dx,
                ey,
            ) by {
                if dx * dx + ey * ey == d2 {
                    assert(dx * dx >= 0) by (nonlinear_arith);
                    lemma_smaller_square(ey, radius as int);
                }
            }
        }
        d2 += 1;
    }
    proof {
        assert forall|dx: int, dy: int| within_radius(dx, dy, radius as int) implies #[trigger] has_offset(
            entries@,
            dx,
            dy,
        ) by {}
    }
    entries
}

/// A number that lies strictly between two neighbouring squares is no square.
pub proof fn lemma_no_root(a: int, s: int, n: int)
    requires
        0 <= s,
        s * s < n < (s + 1) * (s + 1),
    ensures
        a * a != n,
{
    let b = if a < 0 {
        -a
    } else {
        a
    };
    assert(b * b == a * a) by (nonlinear_arith)
        requires
            b == a || b == -a,
    ;
    if b <= s {
        assert(b * b <= s * s) by (nonlinear_arith)
            requires
                0 <= b <= s,
        ;
    } else {
        assert(b * b >= (s + 1) * (s + 1)) by (nonlinear_arith)
            requires
                b >= s + 1,
                s >= 0,
        ;
    }
}

} // verus!
