//! Index arithmetic on mathematical sequences: element counts, strided
//! addresses, row-major strides and the decomposition of a linear index into
//! per-axis coordinates.

use vstd::arithmetic::div_mod::{
    lemma_breakdown, lemma_div_denominator, lemma_fundamental_div_mod_converse,
};
use vstd::prelude::*;

verus! {

/// The entries of `s` as mathematical integers.
pub open spec fn ints(s: Seq<usize>) -> Seq<int> {
    Seq::new(s.len(), |i: int| s[i] as int)
}

/// Every entry of `s` is at least zero.
pub open spec fn non_negative(s: Seq<int>) -> bool {
    forall|i: int| 0 <= i < s.len() ==> 0 <= #[trigger] s[i]
}

/// Every entry of `s` is at least one.
pub open spec fn positive(s: Seq<int>) -> bool {
    forall|i: int| 0 <= i < s.len() ==> 1 <= #[trigger] s[i]
}

/// The product of all entries; 1 for the empty sequence.
pub open spec fn product(s: Seq<int>) -> int
    decreases s.len(),
{
    if s.len() == 0 {
        1
    } else {
        s[0] * product(s.skip(1))
    }
}

/// The sum of `c[i] * s[i]` over the common indices of `c` and `s`.
pub open spec fn dot(c: Seq<int>, s: Seq<int>) -> int
    decreases c.len(),
{
    if c.len() == 0 || s.len() == 0 {
        0
    } else {
        c[0] * s[0] + dot(c.skip(1), s.skip(1))
    }
}

/// `s` with the entries at `a` and `b` exchanged.
pub open spec fn swapped<A>(s: Seq<A>, a: int, b: int) -> Seq<A> {
    s.update(a, s[b]).update(b, s[a])
}

/// Row-major strides of a shape: the stride of an axis is the product of the
/// extents of all later axes, so the last axis has stride 1.
pub open spec fn row_major(dims: Seq<int>) -> Seq<int> {
    Seq::new(dims.len(), |j: int| product(dims.skip(j + 1)))
}

/// `index` names one element of a tensor of shape `dims`.
pub open spec fn in_range(index: Seq<int>, dims: Seq<int>) -> bool {
    &&& index.len() == dims.len()
    &&& forall|j: int| 0 <= j < dims.len() ==> 0 <= #[trigger] index[j] < dims[j]
}

/// The coordinates of the `i`-th element in row-major order of `dims`.
pub open spec fn unravel(i: int, dims: Seq<int>) -> Seq<int>
    decreases dims.len(),
{
    if dims.len() == 0 {
        Seq::empty()
    } else {
        let inner = product(dims.skip(1));
        seq![i / inner] + unravel(i % inner, dims.skip(1))
    }
}

/// The address of the `i`-th element as the kernel computes it: it peels
/// the coordinates off from the last axis, taking the remainder by the
/// extent as the coordinate and going on with the quotient.
pub open spec fn peeled(i: int, dims: Seq<int>, strides: Seq<int>) -> int
    decreases dims.len(),
{
    if dims.len() == 0 {
        0
    } else {
        let last = dims.len() - 1;
        (i % dims[last]) * strides[last] + peeled(
            i / dims[last],
            dims.take(last),
            strides.take(last),
        )
    }
}

/// Each extent lowered by one: the largest coordinate along each axis.
pub open spec fn last_index(dims: Seq<int>) -> Seq<int> {
    Seq::new(dims.len(), |j: int| dims[j] - 1)
}

/// A product of factors that are not negative is not negative.
pub proof fn lemma_product_non_negative(s: Seq<int>)
    requires
        non_negative(s),
    ensures
        0 <= product(s),
    decreases s.len(),
{
    if s.len() > 0 {
        lemma_product_non_negative(s.skip(1));
        assert(0 <= s[0] * product(s.skip(1))) by (nonlinear_arith)
            requires
                0 <= s[0],
                0 <= product(s.skip(1)),
        ;
    }
}

/// A product of factors of at least one is at least one.
pub proof fn lemma_product_positive(s: Seq<int>)
    requires
        positive(s),
    ensures
        1 <= product(s),
    decreases s.len(),
{
    if s.len() > 0 {
        lemma_product_positive(s.skip(1));
        assert(1 <= s[0] * product(s.skip(1))) by (nonlinear_arith)
            requires
                1 <= s[0],
                1 <= product(s.skip(1)),
        ;
    }
}

/// A product is zero exactly when one of its factors is.
pub proof fn lemma_product_zero(s: Seq<int>)
    ensures
        product(s) == 0 <==> exists|i: int| 0 <= i < s.len() && s[i] == 0,
    decreases s.len(),
{
    if s.len() == 0 {
    } else {
        let t = s.skip(1);
        lemma_product_zero(t);
        assert(s[0] * product(t) == 0 <==> (s[0] == 0 || product(t) == 0)) by (nonlinear_arith);
        if product(s) == 0 {
            if s[0] == 0 {
            } else {
                let i = choose|i: int| 0 <= i < t.len() && t[i] == 0;
                assert(s[i + 1] == 0);
            }
        }
        if exists|i: int| 0 <= i < s.len() && s[i] == 0 {
            let i = choose|i: int| 0 <= i < s.len() && s[i] == 0;
            if i > 0 {
                assert(t[i - 1] == 0);
            }
        }
    }
}

/// Dropping leading factors of a shape without zero extents cannot make the
/// product larger.
pub proof fn lemma_product_skip_le(s: Seq<int>, j: int)
    requires
        positive(s),
        0 <= j <= s.len(),
    ensures
        1 <= product(s.skip(j)) <= product(s),
    decreases j,
{
    if j == 0 {
        assert(s.skip(0) =~= s);
        lemma_product_positive(s);
    } else {
        lemma_product_skip_le(s, j - 1);
        let t = s.skip(j - 1);
        assert(t.skip(1) =~= s.skip(j));
        lemma_product_positive(s.skip(j));
        assert(product(s.skip(j)) <= t[0] * product(s.skip(j))) by (nonlinear_arith)
            requires
                1 <= t[0],
                1 <= product(s.skip(j)),
        ;
    }
}

/// Replacing one factor scales the product accordingly.
pub proof fn lemma_product_update(s: Seq<int>, i: int, x: int)
    requires
        0 <= i < s.len(),
    ensures
        product(s.update(i, x)) * s[i] == product(s) * x,
    decreases s.len(),
{
    let u = s.update(i, x);
    let t = s.skip(1);
    if i == 0 {
        assert(u.skip(1) =~= t);
        assert((x * product(t)) * s[0] == (s[0] * product(t)) * x) by (nonlinear_arith);
    } else {
        assert(u.skip(1) =~= t.update(i - 1, x));
        lemma_product_update(t, i - 1, x);
        let pu = product(t.update(i - 1, x));
        let pt = product(t);
        assert((s[0] * pu) * s[i] == (s[0] * pt) * x) by (nonlinear_arith)
            requires
                pu * s[i] == pt * x,
        ;
    }
}

/// Exchanging two factors leaves the product unchanged.
pub proof fn lemma_product_swapped(s: Seq<int>, a: int, b: int)
    requires
        0 <= a < s.len(),
        0 <= b < s.len(),
    ensures
        product(swapped(s, a, b)) == product(s),
{
    if a == b {
        assert(swapped(s, a, b) =~= s);
    } else {
        let s1 = s.update(a, s[b]);
        let s2 = swapped(s, a, b);
        lemma_product_update(s, a, s[b]);
        lemma_product_update(s1, b, s[a]);
        if s[b] == 0 {
            lemma_product_zero(s);
            lemma_product_zero(s2);
            assert(s2[a] == 0);
        } else {
            let before = product(s);
            let between = product(s1);
            let after = product(s2);
            assert(after == before) by (nonlinear_arith)
                requires
                    between * s[a] == before * s[b],
                    after * s[b] == between * s[a],
                    s[b] != 0,
            ;
        }
    }
}

/// Replacing one pair of entries changes the sum by the difference of the
/// two terms.
pub proof fn lemma_dot_update(c: Seq<int>, s: Seq<int>, i: int, x: int, y: int)
    requires
        c.len() == s.len(),
        0 <= i < c.len(),
    ensures
        dot(c.update(i, x), s.update(i, y)) == dot(c, s) - c[i] * s[i] + x * y,
    decreases c.len(),
{
    let cu = c.update(i, x);
    let su = s.update(i, y);
    if i == 0 {
        assert(cu.skip(1) =~= c.skip(1));
        assert(su.skip(1) =~= s.skip(1));
    } else {
        assert(cu.skip(1) =~= c.skip(1).update(i - 1, x));
        assert(su.skip(1) =~= s.skip(1).update(i - 1, y));
        lemma_dot_update(c.skip(1), s.skip(1), i - 1, x, y);
    }
}

/// Exchanging the same two positions in both sequences leaves the sum
/// unchanged.
pub proof fn lemma_dot_swapped(c: Seq<int>, s: Seq<int>, a: int, b: int)
    requires
        c.len() == s.len(),
        0 <= a < c.len(),
        0 <= b < c.len(),
    ensures
        dot(swapped(c, a, b), swapped(s, a, b)) == dot(c, s),
{
    if a == b {
        assert(swapped(c, a, b) =~= c);
        assert(swapped(s, a, b) =~= s);
    } else {
        lemma_dot_update(c, s, a, c[b], s[b]);
        lemma_dot_update(c.update(a, c[b]), s.update(a, s[b]), b, c[a], s[a]);
    }
}

/// With weights that are not negative, a sum grows with its coordinates.
pub proof fn lemma_dot_monotonic(c: Seq<int>, d: Seq<int>, s: Seq<int>)
    requires
        c.len() == s.len(),
        d.len() == s.len(),
        non_negative(s),
        forall|j: int| 0 <= j < s.len() ==> 0 <= #[trigger] c[j] <= d[j],
    ensures
        0 <= dot(c, s) <= dot(d, s),
    decreases s.len(),
{
    if s.len() > 0 {
        assert forall|j: int| 0 <= j < s.skip(1).len() implies 0 <= #[trigger] c.skip(1)[j]
            <= d.skip(1)[j] by {
            assert(0 <= c[j + 1] <= d[j + 1]);
        }
        assert forall|j: int| 0 <= j < s.skip(1).len() implies 0 <= #[trigger] s.skip(1)[j] by {
            assert(0 <= s[j + 1]);
        }
        lemma_dot_monotonic(c.skip(1), d.skip(1), s.skip(1));
        assert(0 <= c[0] <= d[0]);
        assert(0 <= s[0]);
        assert(0 <= c[0] * s[0] <= d[0] * s[0]) by (nonlinear_arith)
            requires
                0 <= c[0] <= d[0],
                0 <= s[0],
        ;
    }
}

/// The row-major strides of the tail of a shape are the tail of its strides.
pub proof fn lemma_row_major_skip(dims: Seq<int>)
    requires
        dims.len() > 0,
    ensures
        row_major(dims).skip(1) =~= row_major(dims.skip(1)),
        row_major(dims)[0] == product(dims.skip(1)),
{
    assert forall|j: int| 0 <= j < dims.len() - 1 implies row_major(dims).skip(1)[j] == row_major(
        dims.skip(1),
    )[j] by {
        assert(dims.skip(1).skip(j + 1) =~= dims.skip(j + 2));
    }
}

/// The coordinates of an element that exists lie within the shape.
pub proof fn lemma_unravel_in_range(i: int, dims: Seq<int>)
    requires
        non_negative(dims),
        0 <= i < product(dims),
    ensures
        in_range(unravel(i, dims), dims),
    decreases dims.len(),
{
    if dims.len() > 0 {
        let tail = dims.skip(1);
        let inner = product(tail);
        assert forall|j: int| 0 <= j < tail.len() implies 0 <= #[trigger] tail[j] by {
            assert(0 <= dims[j + 1]);
        }
        lemma_product_non_negative(tail);
        assert(0 <= dims[0]);
        assert(inner > 0 && 0 <= i / inner < dims[0] && 0 <= i % inner < inner) by (nonlinear_arith)
            requires
                0 <= i < dims[0] * inner,
                0 <= inner,
                0 <= dims[0],
        ;
        lemma_unravel_in_range(i % inner, tail);
        let u = unravel(i, dims);
        assert forall|j: int| 0 <= j < dims.len() implies 0 <= #[trigger] u[j] < dims[j] by {
            if j > 0 {
                assert(u[j] == unravel(i % inner, tail)[j - 1]);
                assert(tail[j - 1] == dims[j]);
            }
        }
    }
}

/// Under row-major strides the address of the `i`-th element is `i`.
pub proof fn lemma_row_major_address(i: int, dims: Seq<int>)
    requires
        non_negative(dims),
        0 <= i < product(dims),
    ensures
        dot(unravel(i, dims), row_major(dims)) == i,
    decreases dims.len(),
{
    if dims.len() > 0 {
        let tail = dims.skip(1);
        let inner = product(tail);
        assert forall|j: int| 0 <= j < tail.len() implies 0 <= #[trigger] tail[j] by {
            assert(0 <= dims[j + 1]);
        }
        lemma_product_non_negative(tail);
        assert(0 <= dims[0]);
        assert(inner > 0 && 0 <= i % inner < inner && (i / inner) * inner + i % inner == i)
            by (nonlinear_arith)
            requires
                0 <= i < dims[0] * inner,
                0 <= inner,
                0 <= dims[0],
        ;
        lemma_row_major_address(i % inner, tail);
        lemma_row_major_skip(dims);
        let u = unravel(i, dims);
        assert(u.skip(1) =~= unravel(i % inner, tail));
        assert(u[0] == i / inner);
    } else {
        assert(product(dims) == 1);
    }
}

/// No address of an element lies beyond the address of the last one.
pub proof fn lemma_address_bounds(index: Seq<int>, dims: Seq<int>, strides: Seq<int>)
    requires
        in_range(index, dims),
        strides.len() == dims.len(),
        non_negative(strides),
    ensures
        0 <= dot(index, strides) <= dot(last_index(dims), strides),
{
    lemma_dot_monotonic(index, last_index(dims), strides);
}

/// Exchanging entries commutes with reading them as integers.
pub proof fn lemma_ints_swapped(s: Seq<usize>, a: int, b: int)
    requires
        0 <= a < s.len(),
        0 <= b < s.len(),
    ensures
        ints(swapped(s, a, b)) =~= swapped(ints(s), a, b),
        last_index(ints(swapped(s, a, b))) =~= swapped(last_index(ints(s)), a, b),
{
    let left = last_index(ints(swapped(s, a, b)));
    let right = swapped(last_index(ints(s)), a, b);
    assert(ints(swapped(s, a, b)) =~= swapped(ints(s), a, b));
    assert forall|j: int| 0 <= j < s.len() implies left[j] == right[j] by {
        assert(left[j] == ints(swapped(s, a, b))[j] - 1);
    }
}

/// A sum over a tail with weights and coordinates that are not negative is
/// no larger than the whole sum.
pub proof fn lemma_dot_skip_le(c: Seq<int>, s: Seq<int>, j: int)
    requires
        c.len() == s.len(),
        non_negative(c),
        non_negative(s),
        0 <= j <= c.len(),
    ensures
        0 <= dot(c.skip(j), s.skip(j)) <= dot(c, s),
    decreases j,
{
    if j == 0 {
        assert(c.skip(0) =~= c);
        assert(s.skip(0) =~= s);
        lemma_dot_monotonic(Seq::new(c.len(), |i: int| 0int), c, s);
    } else {
        lemma_dot_skip_le(c, s, j - 1);
        let ct = c.skip(j - 1);
        let st = s.skip(j - 1);
        assert(ct.skip(1) =~= c.skip(j));
        assert(st.skip(1) =~= s.skip(j));
        assert(0 <= c[j - 1] && 0 <= s[j - 1]);
        assert(0 <= ct[0] * st[0]) by (nonlinear_arith)
            requires
                0 <= ct[0],
                0 <= st[0],
        ;
        assert forall|i: int| 0 <= i < c.skip(j).len() implies 0 <= #[trigger] c.skip(j)[i] by {
            assert(0 <= c[i + j]);
        }
        assert forall|i: int| 0 <= i < s.skip(j).len() implies 0 <= #[trigger] s.skip(j)[i] by {
            assert(0 <= s[i + j]);
        }
        lemma_dot_monotonic(Seq::new(c.skip(j).len(), |i: int| 0int), c.skip(j), s.skip(j));
    }
}

/// Under row-major strides the last element of a shape without zero extents
/// has the address `product(dims) - 1`.
pub proof fn lemma_row_major_last(dims: Seq<int>)
    requires
        positive(dims),
    ensures
        dot(last_index(dims), row_major(dims)) == product(dims) - 1,
    decreases dims.len(),
{
    if dims.len() > 0 {
        let tail = dims.skip(1);
        assert forall|j: int| 0 <= j < tail.len() implies 1 <= #[trigger] tail[j] by {
            assert(1 <= dims[j + 1]);
        }
        lemma_row_major_last(tail);
        lemma_row_major_skip(dims);
        assert(last_index(dims).skip(1) =~= last_index(tail));
        let inner = product(tail);
        assert((dims[0] - 1) * inner + (inner - 1) == dims[0] * inner - 1) by (nonlinear_arith);
    }
}

/// A product is the product of all factors but the last, times the last.
pub proof fn lemma_product_last(s: Seq<int>)
    requires
        s.len() > 0,
    ensures
        product(s) == product(s.take(s.len() - 1)) * s[s.len() - 1],
    decreases s.len(),
{
    let last = s.len() - 1;
    let front = s.take(last);
    if s.len() == 1 {
        assert(front =~= Seq::<int>::empty());
        assert(s.skip(1) =~= Seq::<int>::empty());
        assert(product(s) == s[0] * product(s.skip(1)));
    } else {
        let tail = s.skip(1);
        lemma_product_last(tail);
        assert(front.skip(1) =~= tail.take(last - 1));
        assert(tail[last - 1] == s[last]);
        assert(product(s) == s[0] * product(tail));
        assert(product(front) == s[0] * product(front.skip(1)));
        let mid = product(front.skip(1));
        assert(s[0] * (mid * s[last]) == (s[0] * mid) * s[last]) by (nonlinear_arith);
    }
}

/// A sum is the sum over all positions but the last, plus the last term.
pub proof fn lemma_dot_last(c: Seq<int>, s: Seq<int>)
    requires
        c.len() == s.len(),
        c.len() > 0,
    ensures
        dot(c, s) == dot(c.take(c.len() - 1), s.take(c.len() - 1)) + c[c.len() - 1] * s[c.len()
            - 1],
    decreases c.len(),
{
    let last = c.len() - 1;
    assert(dot(c, s) == c[0] * s[0] + dot(c.skip(1), s.skip(1)));
    if c.len() == 1 {
        assert(c.take(last) =~= Seq::<int>::empty());
        assert(s.take(last) =~= Seq::<int>::empty());
        assert(c.skip(1) =~= Seq::<int>::empty());
        assert(dot(c.skip(1), s.skip(1)) == 0);
        assert(dot(c.take(last), s.take(last)) == 0);
    } else {
        let cf = c.take(last);
        let sf = s.take(last);
        lemma_dot_last(c.skip(1), s.skip(1));
        assert(cf.skip(1) =~= c.skip(1).take(last - 1));
        assert(sf.skip(1) =~= s.skip(1).take(last - 1));
        assert(dot(cf, sf) == cf[0] * sf[0] + dot(cf.skip(1), sf.skip(1)));
        assert(c.skip(1)[last - 1] == c[last]);
        assert(s.skip(1)[last - 1] == s[last]);
    }
}

/// The coordinates of an element are those of the quotient of its index
/// by the last extent, within the shape without its last axis, followed by
/// the remainder.
pub proof fn lemma_unravel_last(i: int, dims: Seq<int>)
    requires
        dims.len() > 0,
        positive(dims),
        0 <= i < product(dims),
    ensures
        unravel(i, dims) =~= unravel(
            i / dims[dims.len() - 1],
            dims.take(dims.len() - 1),
        ).push(i % dims[dims.len() - 1]),
        0 <= i / dims[dims.len() - 1] < product(dims.take(dims.len() - 1)),
    decreases dims.len(),
{
    let last = dims.len() - 1;
    let dl = dims[last];
    let front = dims.take(last);
    let q = i / dl;
    assert(1 <= dl);
    lemma_product_last(dims);
    assert(0 <= q < product(front) && 0 <= i % dl < dl) by (nonlinear_arith)
        requires
            0 <= i < product(front) * dl,
            1 <= dl,
            q == i / dl,
    ;
    if dims.len() == 1 {
        assert(front =~= Seq::<int>::empty());
        assert(dims.skip(1) =~= Seq::<int>::empty());
        assert(product(dims.skip(1)) == 1);
        assert(product(dims) == dims[0] * product(dims.skip(1)));
        assert(i % dl == i) by (nonlinear_arith)
            requires
                0 <= i < dl,
        ;
        assert(unravel(i % 1, dims.skip(1)) =~= Seq::<int>::empty());
        assert(unravel(q, front) =~= Seq::<int>::empty());
        assert(unravel(i, dims) =~= seq![i / 1] + unravel(i % 1, dims.skip(1)));
    } else {
        let tail = dims.skip(1);
        let inner = product(tail);
        let mid = front.skip(1);
        let mid_count = product(mid);
        assert(mid =~= tail.take(last - 1));
        assert(tail[last - 1] == dl);
        assert forall|j: int| 0 <= j < tail.len() implies 1 <= #[trigger] tail[j] by {
            assert(1 <= dims[j + 1]);
        }
        assert forall|j: int| 0 <= j < mid.len() implies 1 <= #[trigger] mid[j] by {
            assert(1 <= dims[j + 1]);
        }
        lemma_product_positive(tail);
        lemma_product_positive(mid);
        lemma_product_last(tail);
        assert(inner == dl * mid_count) by (nonlinear_arith)
            requires
                inner == mid_count * dl,
        ;
        let rest = i % inner;
        assert(0 <= rest < inner) by (nonlinear_arith)
            requires
                0 <= i,
                0 < inner,
                rest == i % inner,
        ;
        lemma_unravel_last(rest, tail);
        lemma_div_denominator(i, dl, mid_count);
        lemma_breakdown(i, dl, mid_count);
        assert(rest == (q % mid_count) * dl + i % dl) by (nonlinear_arith)
            requires
                rest == dl * (q % mid_count) + i % dl,
        ;
        lemma_fundamental_div_mod_converse(rest, dl, q % mid_count, i % dl);
        assert(i / inner == q / mid_count);
        assert(rest / dl == q % mid_count);
        assert(rest % dl == i % dl);
        assert(unravel(i, dims) =~= seq![i / inner] + unravel(rest, tail));
        assert(unravel(q, front) =~= seq![q / mid_count] + unravel(q % mid_count, mid));
    }
}

/// Peeling coordinates off from the last axis gives the address of the
/// element in row-major order.
pub proof fn lemma_peeled_is_address(i: int, dims: Seq<int>, strides: Seq<int>)
    requires
        positive(dims),
        strides.len() == dims.len(),
        0 <= i < product(dims),
    ensures
        peeled(i, dims, strides) == dot(unravel(i, dims), strides),
    decreases dims.len(),
{
    if dims.len() > 0 {
        let last = dims.len() - 1;
        let front = dims.take(last);
        lemma_unravel_last(i, dims);
        assert forall|j: int| 0 <= j < front.len() implies 1 <= #[trigger] front[j] by {
            assert(1 <= dims[j]);
        }
        lemma_peeled_is_address(i / dims[last], front, strides.take(last));
        let u = unravel(i, dims);
        let v = unravel(i / dims[last], front);
        lemma_unravel_in_range(i, dims);
        lemma_dot_last(u, strides);
        assert(u.take(last) =~= v);
    } else {
        assert(unravel(i, dims) =~= Seq::<int>::empty());
    }
}

/// A peeled address is not negative when index and strides are not.
pub proof fn lemma_peeled_non_negative(i: int, dims: Seq<int>, strides: Seq<int>)
    requires
        positive(dims),
        non_negative(strides),
        strides.len() == dims.len(),
        0 <= i,
    ensures
        0 <= peeled(i, dims, strides),
    decreases dims.len(),
{
    if dims.len() > 0 {
        let last = dims.len() - 1;
        let front = dims.take(last);
        assert forall|j: int| 0 <= j < front.len() implies 1 <= #[trigger] front[j] by {
            assert(1 <= dims[j]);
        }
        let weights = strides.take(last);
        assert forall|j: int| 0 <= j < weights.len() implies 0 <= #[trigger] weights[j] by {
            assert(0 <= strides[j]);
        }
        assert(1 <= dims[last]);
        assert(0 <= strides[last]);
        assert(0 <= i / dims[last] && 0 <= (i % dims[last]) * strides[last]) by (nonlinear_arith)
            requires
                0 <= i,
                1 <= dims[last],
                0 <= strides[last],
        ;
        lemma_peeled_non_negative(i / dims[last], front, weights);
    }
}

} // verus!
