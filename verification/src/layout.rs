//! Layouts: how the logical indices of a tensor map onto a flat buffer.

use crate::error::{ShapeFault, TensorError};
use crate::index::{
    dot, in_range, ints, last_index, lemma_address_bounds, lemma_dot_skip_le, lemma_dot_swapped,
    lemma_ints_swapped, lemma_product_non_negative, lemma_product_skip_le, lemma_product_swapped,
    lemma_product_zero, lemma_row_major_address, lemma_row_major_last, lemma_unravel_in_range,
    non_negative, positive, product, row_major, swapped, unravel,
};
use vstd::prelude::*;

verus! {

/// The mathematical content of a [`Layout`].
pub struct LayoutView {
    /// The extent of each axis.
    pub dims: Seq<usize>,
    /// The number of buffer elements between neighbours along each axis.
    pub strides: Seq<usize>,
    /// The buffer position of the element whose coordinates are all zero.
    pub offset: usize,
}

impl LayoutView {
    /// Shape and strides have one entry per axis.
    pub open spec fn wf(self) -> bool {
        self.dims.len() == self.strides.len()
    }

    /// The number of axes.
    pub open spec fn rank(self) -> nat {
        self.dims.len()
    }

    /// The number of logical elements.
    pub open spec fn elem_count(self) -> int {
        product(ints(self.dims))
    }

    /// The number of buffer elements, counted from `offset`, that the layout
    /// reaches: none for an empty tensor, else one more than the distance to
    /// the element with the largest coordinates.
    pub open spec fn span(self) -> int {
        if self.elem_count() == 0 {
            0
        } else {
            1 + dot(last_index(ints(self.dims)), ints(self.strides))
        }
    }

    /// Every element that the layout addresses lies in a buffer of `len`
    /// elements.
    pub open spec fn fits(self, len: int) -> bool {
        self.offset + self.span() <= len
    }

    /// The buffer position of the element at `index`.
    pub open spec fn address(self, index: Seq<int>) -> int {
        self.offset + dot(index, ints(self.strides))
    }

    /// The buffer position of the `i`-th element in row-major order.
    pub open spec fn source_index(self, i: int) -> int {
        self.address(unravel(i, ints(self.dims)))
    }

    /// The strides are the row-major strides of the shape.
    pub open spec fn is_contiguous(self) -> bool {
        ints(self.strides) == row_major(ints(self.dims))
    }

    /// The layout with axes `a` and `b` exchanged.
    pub open spec fn transposed(self, a: int, b: int) -> LayoutView {
        LayoutView {
            dims: swapped(self.dims, a, b),
            strides: swapped(self.strides, a, b),
            offset: self.offset,
        }
    }
}

/// A run of consecutive buffer elements.
#[derive(Clone, Copy, Debug, PartialEq, Eq, Structural)]
pub struct Window {
    /// The position of the first element.
    pub start: usize,
    /// The number of elements.
    pub len: usize,
}

/// Element count and row-major strides of `dims` all fit in `usize`.
pub open spec fn representable(dims: Seq<usize>) -> bool {
    forall|j: int| 0 <= j <= dims.len() ==> #[trigger] product(ints(dims).skip(j)) <= usize::MAX
}

/// The element count of a representable shape, as a machine integer.
pub open spec fn shape_count(dims: Seq<usize>) -> usize {
    product(ints(dims)) as usize
}

/// The dense row-major layout of a shape that is representable.
pub open spec fn canonical(dims: Seq<usize>) -> LayoutView {
    LayoutView {
        dims,
        strides: Seq::new(dims.len(), |j: int| product(ints(dims).skip(j + 1)) as usize),
        offset: 0,
    }
}

/// Shape, strides and start offset of a tensor. A value is never changed in
/// place: every operation returns a new layout.
#[derive(Debug, PartialEq, Eq)]
pub struct Layout {
    dims: Vec<usize>,
    strides: Vec<usize>,
    offset: usize,
}

impl View for Layout {
    type V = LayoutView;

    closed spec fn view(&self) -> LayoutView {
        LayoutView { dims: self.dims@, strides: self.strides@, offset: self.offset }
    }
}

impl Clone for Layout {
    fn clone(&self) -> (r: Self)
        ensures
            r@ == self@,
    {
        proof {
            use_type_invariant(self);
        }
        let dims = self.dims.clone();
        let strides = self.strides.clone();
        assert(dims@ =~= self.dims@);
        assert(strides@ =~= self.strides@);
        Layout { dims, strides, offset: self.offset }
    }
}

impl Layout {
    #[verifier::type_invariant]
    spec fn well_formed(self) -> bool {
        self.dims@.len() == self.strides@.len()
    }

    /// Stores the three parts as they are. Nothing is checked against a
    /// buffer; that is the task of whoever holds one.
    pub fn new(dims: Vec<usize>, strides: Vec<usize>, offset: usize) -> (r: Result<
        Layout,
        TensorError,
    >)
        ensures
            match r {
                Ok(l) => dims@.len() == strides@.len() && l@ == (LayoutView {
                    dims: dims@,
                    strides: strides@,
                    offset,
                }),
                Err(e) => dims@.len() != strides@.len() && e == TensorError::ShapeMismatch(
                    ShapeFault::Rank {
                        expected: dims@.len() as usize,
                        actual: strides@.len() as usize,
                    },
                ),
            },
    {
        if dims.len() != strides.len() {
            return Err(
                TensorError::ShapeMismatch(
                    ShapeFault::Rank { expected: dims.len(), actual: strides.len() },
                ),
            );
        }
        Ok(Layout { dims, strides, offset })
    }

    /// The dense row-major layout of `dims` at offset 0, or `None` when the
    /// element count or a stride does not fit in `usize`.
    pub fn contiguous(dims: Vec<usize>) -> (r: Option<Layout>)
        ensures
            match r {
                Some(l) => representable(dims@) && l@ == canonical(dims@),
                None => !representable(dims@),
            },
    {
        let n = dims.len();
        let ghost d = ints(dims@);
        let mut strides: Vec<usize> = vec![0; n];
        let mut acc: usize = 1;
        let mut j: usize = n;
        assert(d.skip(n as int) =~= Seq::<int>::empty());
        while j > 0
            invariant
                j <= n,
                n == dims@.len(),
                d == ints(dims@),
                strides@.len() == n,
                acc == product(d.skip(j as int)),
                forall|t: int| j <= t < n ==> strides@[t] == product(d.skip(t + 1)),
                forall|t: int| j <= t <= n ==> #[trigger] product(d.skip(t)) <= usize::MAX,
            decreases j,
        {
            j = j - 1;
            strides.set(j, acc);
            proof {
                assert(d.skip(j as int).skip(1) =~= d.skip(j + 1));
                assert(d.skip(j as int)[0] == dims@[j as int]);
                assert(product(d.skip(j as int)) == dims@[j as int] * product(d.skip(j + 1)));
                assert(dims@[j as int] * acc == acc * dims@[j as int]) by (nonlinear_arith);
            }
            match acc.checked_mul(dims[j]) {
                Some(p) => {
                    acc = p;
                },
                None => {
                    assert(product(ints(dims@).skip(j as int)) > usize::MAX);
                    return None;
                },
            }
        }
        let l = Layout { dims, strides, offset: 0 };
        assert(l@.strides =~= canonical(l@.dims).strides);
        Some(l)
    }

    /// The extent of each axis.
    pub fn dims(&self) -> (r: &Vec<usize>)
        ensures
            r@ == self@.dims,
            self@.wf(),
    {
        proof {
            use_type_invariant(self);
        }
        &self.dims
    }

    /// The stride of each axis, in elements.
    pub fn stride(&self) -> (r: &Vec<usize>)
        ensures
            r@ == self@.strides,
            self@.wf(),
    {
        proof {
            use_type_invariant(self);
        }
        &self.strides
    }

    /// The buffer position of the logical origin.
    pub fn start_offset(&self) -> (r: usize)
        ensures
            r == self@.offset,
    {
        self.offset
    }

    /// The number of axes.
    pub fn rank(&self) -> (r: usize)
        ensures
            r == self@.rank(),
            self@.wf(),
    {
        proof {
            use_type_invariant(self);
        }
        self.dims.len()
    }

    /// Exchanges two axes. No data moves: shape and strides are permuted
    /// together and the offset stays. Fails when either axis does not exist,
    /// naming the first that does not.
    pub fn transpose(&self, a: usize, b: usize) -> (r: Result<Layout, TensorError>)
        ensures
            self@.wf(),
            match r {
                Ok(l) => a < self@.rank() && b < self@.rank() && l@ == self@.transposed(
                    a as int,
                    b as int,
                ),
                Err(e) => (a >= self@.rank() || b >= self@.rank()) && e
                    == TensorError::IndexOutOfRange {
                    axis: if a >= self@.rank() {
                        a
                    } else {
                        b
                    },
                    rank: self@.rank() as usize,
                },
            },
    {
        proof {
            use_type_invariant(self);
        }
        let rank = self.dims.len();
        if a >= rank {
            return Err(TensorError::IndexOutOfRange { axis: a, rank });
        }
        if b >= rank {
            return Err(TensorError::IndexOutOfRange { axis: b, rank });
        }
        let mut dims = self.dims.clone();
        let mut strides = self.strides.clone();
        let (da, db) = (dims[a], dims[b]);
        let (sa, sb) = (strides[a], strides[b]);
        dims.set(a, db);
        dims.set(b, da);
        strides.set(a, sb);
        strides.set(b, sa);
        let l = Layout { dims, strides, offset: self.offset };
        assert(l@.dims =~= swapped(self@.dims, a as int, b as int));
        assert(l@.strides =~= swapped(self@.strides, a as int, b as int));
        Ok(l)
    }

    /// Whether the strides are exactly the row-major strides of the shape.
    pub fn is_contiguous(&self) -> (r: bool)
        ensures
            r == self@.is_contiguous(),
    {
        proof {
            use_type_invariant(self);
        }
        let n = self.dims.len();
        let ghost d = ints(self.dims@);
        let ghost s = ints(self.strides@);
        let mut acc: Option<usize> = Some(1);
        let mut j: usize = n;
        assert(d.skip(n as int) =~= Seq::<int>::empty());
        while j > 0
            invariant
                j <= n,
                n == self.dims@.len(),
                n == self.strides@.len(),
                d == ints(self.dims@),
                s == ints(self.strides@),
                acc matches Some(p) ==> p == product(d.skip(j as int)),
                acc is None ==> product(d.skip(j as int)) > usize::MAX,
                forall|t: int| j <= t < n ==> s[t] == #[trigger] row_major(d)[t],
            decreases j,
        {
            j = j - 1;
            proof {
                assert(d.skip(j as int).skip(1) =~= d.skip(j + 1));
                assert(d.skip(j as int)[0] == self.dims@[j as int]);
                assert(product(d.skip(j as int)) == self.dims@[j as int] * product(
                    d.skip(j + 1),
                ));
            }
            match acc {
                None => {
                    assert(s[j as int] != row_major(d)[j as int]);
                    return false;
                },
                Some(p) => {
                    if self.strides[j] != p {
                        assert(s[j as int] != row_major(d)[j as int]);
                        return false;
                    }
                    assert(self.dims@[j as int] * p == p * self.dims@[j as int])
                        by (nonlinear_arith);
                    acc = p.checked_mul(self.dims[j]);
                },
            }
        }
        assert(s =~= row_major(d));
        true
    }
}

impl Layout {
    /// Whether some axis has extent zero, that is, whether the tensor has no
    /// elements.
    pub fn is_empty(&self) -> (r: bool)
        ensures
            r == (self@.elem_count() == 0),
    {
        let n = self.dims.len();
        let mut j: usize = 0;
        while j < n
            invariant
                j <= n,
                n == self.dims@.len(),
                forall|t: int| 0 <= t < j ==> self.dims@[t] != 0,
            decreases n - j,
        {
            if self.dims[j] == 0 {
                proof {
                    lemma_product_zero(ints(self.dims@));
                    assert(ints(self.dims@)[j as int] == 0);
                }
                return true;
            }
            j = j + 1;
        }
        proof {
            lemma_product_zero(ints(self.dims@));
        }
        false
    }

    /// The number of logical elements, or `None` when it exceeds `usize`.
    pub fn elem_count(&self) -> (r: Option<usize>)
        ensures
            match r {
                Some(c) => c == self@.elem_count(),
                None => self@.elem_count() > usize::MAX,
            },
    {
        if self.is_empty() {
            return Some(0);
        }
        let n = self.dims.len();
        let ghost d = ints(self.dims@);
        proof {
            lemma_product_zero(d);
            assert forall|t: int| 0 <= t < d.len() implies 1 <= #[trigger] d[t] by {
                if d[t] == 0 {
                    assert(exists|i: int| 0 <= i < d.len() && d[i] == 0);
                }
            }
            assert(d.skip(n as int) =~= Seq::<int>::empty());
        }
        let mut acc: usize = 1;
        let mut j: usize = n;
        while j > 0
            invariant
                j <= n,
                n == self.dims@.len(),
                d == ints(self.dims@),
                positive(d),
                acc == product(d.skip(j as int)),
            decreases j,
        {
            j = j - 1;
            proof {
                assert(d.skip(j as int).skip(1) =~= d.skip(j + 1));
                assert(d.skip(j as int)[0] == self.dims@[j as int]);
                assert(product(d.skip(j as int)) == self.dims@[j as int] * product(
                    d.skip(j + 1),
                ));
                assert(self.dims@[j as int] * acc == acc * self.dims@[j as int])
                    by (nonlinear_arith);
                lemma_product_skip_le(d, j as int);
            }
            match acc.checked_mul(self.dims[j]) {
                Some(p) => {
                    acc = p;
                },
                None => {
                    assert(product(d.skip(j as int)) > usize::MAX);
                    assert(product(d) > usize::MAX);
                    return None;
                },
            }
        }
        assert(d.skip(0) =~= d);
        Some(acc)
    }

    /// The number of buffer elements that the layout reaches from its
    /// offset, or `None` when that number exceeds `usize`.
    pub fn span(&self) -> (r: Option<usize>)
        ensures
            match r {
                Some(c) => c == self@.span(),
                None => self@.span() > usize::MAX,
            },
    {
        proof {
            use_type_invariant(self);
        }
        if self.is_empty() {
            return Some(0);
        }
        let n = self.dims.len();
        let ghost d = ints(self.dims@);
        let ghost s = ints(self.strides@);
        let ghost m = last_index(d);
        proof {
            lemma_product_zero(d);
            assert forall|t: int| 0 <= t < d.len() implies 0 <= #[trigger] m[t] by {
                if d[t] == 0 {
                    assert(exists|i: int| 0 <= i < d.len() && d[i] == 0);
                }
            }
            assert(m.skip(n as int) =~= Seq::<int>::empty());
        }
        let mut acc: usize = 0;
        let mut j: usize = n;
        while j > 0
            invariant
                j <= n,
                n == self.dims@.len(),
                n == self.strides@.len(),
                d == ints(self.dims@),
                s == ints(self.strides@),
                m == last_index(d),
                non_negative(m),
                non_negative(s),
                self@.elem_count() != 0,
                acc == dot(m.skip(j as int), s.skip(j as int)),
            decreases j,
        {
            j = j - 1;
            proof {
                assert(m.skip(j as int).skip(1) =~= m.skip(j + 1));
                assert(s.skip(j as int).skip(1) =~= s.skip(j + 1));
                assert(m.skip(j as int)[0] == self.dims@[j as int] - 1);
                assert(s.skip(j as int)[0] == self.strides@[j as int]);
                assert(dot(m.skip(j as int), s.skip(j as int)) == (self.dims@[j as int] - 1)
                    * self.strides@[j as int] + dot(m.skip(j + 1), s.skip(j + 1)));
                lemma_dot_skip_le(m, s, j as int);
                assert(0 <= m[j as int]);
                assert(0 <= (self.dims@[j as int] - 1) * self.strides@[j as int])
                    by (nonlinear_arith)
                    requires
                        0 <= self.dims@[j as int] - 1,
                        0 <= self.strides@[j as int],
                ;
            }
            let term = match (self.dims[j] - 1).checked_mul(self.strides[j]) {
                Some(t) => t,
                None => {
                    assert(dot(m, s) > usize::MAX);
                    return None;
                },
            };
            match acc.checked_add(term) {
                Some(a) => {
                    acc = a;
                },
                None => {
                    assert(dot(m, s) > usize::MAX);
                    return None;
                },
            }
        }
        assert(m.skip(0) =~= m);
        assert(s.skip(0) =~= s);
        acc.checked_add(1)
    }

    /// Whether every element that the layout addresses lies within a buffer
    /// of `len` elements.
    pub fn fits(&self, len: usize) -> (r: bool)
        ensures
            r == self@.fits(len as int),
            self@.wf(),
    {
        proof {
            use_type_invariant(self);
        }
        match self.span() {
            None => false,
            Some(sp) => match self.offset.checked_add(sp) {
                None => false,
                Some(end) => end <= len,
            },
        }
    }

    /// The buffer position of the element at `index`: `offset` plus the sum
    /// of `index[i] * strides[i]`. `None` when `index` names no element of
    /// the shape or the position exceeds `usize`.
    pub fn offset_of(&self, index: &[usize]) -> (r: Option<usize>)
        ensures
            match r {
                Some(p) => in_range(ints(index@), ints(self@.dims)) && p == self@.address(
                    ints(index@),
                ),
                None => !in_range(ints(index@), ints(self@.dims)) || self@.address(ints(index@))
                    > usize::MAX,
            },
    {
        proof {
            use_type_invariant(self);
        }
        let n = self.dims.len();
        if index.len() != n {
            return None;
        }
        let ghost c = ints(index@);
        let ghost d = ints(self.dims@);
        let ghost s = ints(self.strides@);
        assert(c.skip(n as int) =~= Seq::<int>::empty());
        let mut acc: usize = 0;
        let mut j: usize = n;
        while j > 0
            invariant
                j <= n,
                n == self.dims@.len(),
                n == self.strides@.len(),
                n == index@.len(),
                c == ints(index@),
                d == ints(self.dims@),
                s == ints(self.strides@),
                non_negative(c),
                non_negative(s),
                acc == dot(c.skip(j as int), s.skip(j as int)),
                forall|t: int| j <= t < n ==> 0 <= #[trigger] c[t] < d[t],
            decreases j,
        {
            j = j - 1;
            if index[j] >= self.dims[j] {
                assert(!(0 <= c[j as int] < d[j as int]));
                return None;
            }
            proof {
                assert(c.skip(j as int).skip(1) =~= c.skip(j + 1));
                assert(s.skip(j as int).skip(1) =~= s.skip(j + 1));
                assert(c.skip(j as int)[0] == index@[j as int]);
                assert(s.skip(j as int)[0] == self.strides@[j as int]);
                assert(dot(c.skip(j as int), s.skip(j as int)) == index@[j as int]
                    * self.strides@[j as int] + dot(c.skip(j + 1), s.skip(j + 1)));
                lemma_dot_skip_le(c, s, j as int);
                assert(0 <= index@[j as int] * self.strides@[j as int]) by (nonlinear_arith)
                    requires
                        0 <= index@[j as int],
                        0 <= self.strides@[j as int],
                ;
            }
            let term = match index[j].checked_mul(self.strides[j]) {
                Some(t) => t,
                None => {
                    return None;
                },
            };
            match acc.checked_add(term) {
                Some(a) => {
                    acc = a;
                },
                None => {
                    return None;
                },
            }
        }
        assert(c.skip(0) =~= c);
        assert(s.skip(0) =~= s);
        self.offset.checked_add(acc)
    }
}

/// The entries of a sequence of `usize` are not negative.
pub proof fn lemma_ints_non_negative(s: Seq<usize>)
    ensures
        non_negative(ints(s)),
        ints(s).len() == s.len(),
{
}

/// A shape without elements has an axis of extent zero; any other shape has
/// extents of at least one.
pub proof fn lemma_extents_positive(dims: Seq<usize>)
    ensures
        non_negative(ints(dims)),
        0 <= product(ints(dims)),
        product(ints(dims)) != 0 ==> positive(ints(dims)) && non_negative(last_index(ints(dims))),
{
    let d = ints(dims);
    lemma_product_zero(d);
    lemma_product_non_negative(d);
    if product(d) != 0 {
        assert forall|t: int| 0 <= t < d.len() implies 1 <= #[trigger] d[t] by {
            if d[t] == 0 {
                assert(exists|i: int| 0 <= i < d.len() && d[i] == 0);
            }
        }
        assert forall|t: int| 0 <= t < d.len() implies 0 <= #[trigger] last_index(d)[t] by {
            assert(1 <= d[t]);
        }
    }
}

/// Transposing twice over the same pair of axes gives the layout back.
pub proof fn law_transpose_involution(v: LayoutView, a: int, b: int)
    requires
        v.wf(),
        0 <= a < v.rank(),
        0 <= b < v.rank(),
    ensures
        v.transposed(a, b).wf(),
        v.transposed(a, b).transposed(a, b) == v,
{
    let t = v.transposed(a, b);
    assert(t.transposed(a, b).dims =~= v.dims);
    assert(t.transposed(a, b).strides =~= v.strides);
}

/// Transposing permutes addressing and never changes its range: element
/// count and span stay, so the transposed layout fits the same buffers.
pub proof fn law_transpose_preserves_extent(v: LayoutView, a: int, b: int)
    requires
        v.wf(),
        0 <= a < v.rank(),
        0 <= b < v.rank(),
    ensures
        v.transposed(a, b).elem_count() == v.elem_count(),
        v.transposed(a, b).span() == v.span(),
        forall|len: int| v.transposed(a, b).fits(len) == v.fits(len),
{
    let t = v.transposed(a, b);
    lemma_ints_swapped(v.dims, a, b);
    lemma_ints_swapped(v.strides, a, b);
    lemma_product_swapped(ints(v.dims), a, b);
    lemma_dot_swapped(last_index(ints(v.dims)), ints(v.strides), a, b);
}

/// The element at `index` of a layout is the element at the exchanged
/// index of the transposed layout.
pub proof fn law_transpose_permutes_addressing(v: LayoutView, a: int, b: int, index: Seq<int>)
    requires
        v.wf(),
        0 <= a < v.rank(),
        0 <= b < v.rank(),
        in_range(index, ints(v.dims)),
    ensures
        in_range(swapped(index, a, b), ints(v.transposed(a, b).dims)),
        v.transposed(a, b).address(swapped(index, a, b)) == v.address(index),
{
    lemma_ints_swapped(v.dims, a, b);
    lemma_ints_swapped(v.strides, a, b);
    lemma_dot_swapped(index, ints(v.strides), a, b);
    let si = swapped(index, a, b);
    let sd = ints(v.transposed(a, b).dims);
    assert forall|j: int| 0 <= j < sd.len() implies 0 <= #[trigger] si[j] < sd[j] by {
        if j == b {
            assert(0 <= index[a] < ints(v.dims)[a]);
        } else if j == a {
            assert(0 <= index[b] < ints(v.dims)[b]);
        } else {
            assert(0 <= index[j] < ints(v.dims)[j]);
        }
    }
}

/// Every index within the shape addresses a position between the offset
/// and the end of the span, hence an element of any buffer that the layout
/// fits.
pub proof fn law_addresses_in_bounds(v: LayoutView, len: int, index: Seq<int>)
    requires
        v.wf(),
        v.fits(len),
        in_range(index, ints(v.dims)),
    ensures
        v.elem_count() > 0,
        v.offset <= v.address(index) < v.offset + v.span(),
        v.address(index) < len,
{
    let d = ints(v.dims);
    lemma_extents_positive(v.dims);
    lemma_ints_non_negative(v.strides);
    if product(d) == 0 {
        lemma_product_zero(d);
        let i = choose|i: int| 0 <= i < d.len() && d[i] == 0;
        assert(0 <= index[i] < d[i]);
    }
    lemma_address_bounds(index, d, ints(v.strides));
}

/// The row-major position of each element of a layout lies within any
/// buffer that the layout fits.
pub proof fn law_source_index_in_bounds(v: LayoutView, len: int, i: int)
    requires
        v.wf(),
        v.fits(len),
        0 <= i < v.elem_count(),
    ensures
        v.offset <= v.source_index(i) < v.offset + v.span(),
        v.source_index(i) < len,
{
    lemma_extents_positive(v.dims);
    lemma_unravel_in_range(i, ints(v.dims));
    law_addresses_in_bounds(v, len, unravel(i, ints(v.dims)));
}

/// The dense layout of a representable shape is well formed and
/// contiguous, and covers exactly as many buffer elements as it has
/// logical ones.
pub proof fn law_canonical(dims: Seq<usize>)
    requires
        representable(dims),
    ensures
        canonical(dims).wf(),
        canonical(dims).is_contiguous(),
        canonical(dims).elem_count() <= usize::MAX,
        canonical(dims).span() == canonical(dims).elem_count(),
        canonical(dims).fits(canonical(dims).elem_count()),
{
    let c = canonical(dims);
    let d = ints(dims);
    lemma_extents_positive(dims);
    assert(d.skip(0) =~= d);
    assert(product(d.skip(0)) <= usize::MAX);
    assert forall|j: int| 0 <= j < d.len() implies ints(c.strides)[j] == row_major(d)[j] by {
        let tail = d.skip(j + 1);
        assert forall|t: int| 0 <= t < tail.len() implies 0 <= #[trigger] tail[t] by {
            assert(0 <= d[t + j + 1]);
        }
        lemma_product_non_negative(d.skip(j + 1));
        assert(product(d.skip(j + 1)) <= usize::MAX);
    }
    assert(ints(c.strides) =~= row_major(d));
    if product(d) != 0 {
        lemma_row_major_last(d);
    }
}

/// In a contiguous layout the elements lie in row-major order, one after
/// the other from the offset on.
pub proof fn law_contiguous_is_dense(v: LayoutView, i: int)
    requires
        v.wf(),
        v.is_contiguous(),
        0 <= i < v.elem_count(),
    ensures
        v.source_index(i) == v.offset + i,
        v.span() == v.elem_count(),
{
    lemma_extents_positive(v.dims);
    lemma_row_major_address(i, ints(v.dims));
    lemma_row_major_last(ints(v.dims));
}

} // verus!
