//! The contiguity kernel: an element-wise gather that reads through an
//! arbitrary stride pattern and writes a dense row-major output.
//!
//! The device runs the kernel; this module says what it computes, packs its
//! arguments, and holds a host implementation with the same argument list.

use crate::index::{
    in_range, ints, lemma_peeled_is_address, lemma_peeled_non_negative, lemma_unravel_in_range,
    non_negative, peeled, positive, swapped, unravel,
};
use crate::layout::{
    law_contiguous_is_dense, law_source_index_in_bounds, law_transpose_involution,
    law_transpose_permutes_addressing, law_transpose_preserves_extent, lemma_extents_positive,
    lemma_ints_non_negative, Layout, LayoutView, Window,
};
use vstd::prelude::*;

verus! {

/// The logical elements of a strided view in row-major order: what the
/// kernel writes, given the buffer it reads.
pub open spec fn gathered<T>(buffer: Seq<T>, v: LayoutView) -> Seq<T> {
    Seq::new(v.elem_count() as nat, |i: int| buffer[v.source_index(i)])
}

/// The auxiliary array handed to the kernel: the extents of all axes,
/// followed by the strides of all axes.
pub open spec fn packed(v: LayoutView) -> Seq<usize> {
    v.dims + v.strides
}

/// Three extents of a launch grid or of a thread block.
#[derive(Clone, Copy, Debug, PartialEq, Eq, Structural)]
pub struct Dim3 {
    pub x: u32,
    pub y: u32,
    pub z: u32,
}

/// The geometry of a kernel launch.
#[derive(Clone, Copy, Debug, PartialEq, Eq, Structural)]
pub struct LaunchDims {
    /// The number of thread blocks along each axis.
    pub grid: Dim3,
    /// The number of threads of a block along each axis.
    pub block: Dim3,
    /// Dynamic shared memory per block, in bytes.
    pub shared_mem_bytes: u32,
}

/// `cudarc::driver::LaunchConfig::for_num_elems`: one-dimensional launch
/// geometry for `n` elements, with blocks of 1024 threads, `n / 1024`
/// blocks rounded up, and no shared memory. Believed of cudarc, not
/// proved.
#[verifier::external_body]
fn for_num_elems(n: u32) -> (r: LaunchDims)
    ensures
        r.block == (Dim3 { x: 1024, y: 1, z: 1 }),
        r.grid.x == (n + 1023) / 1024,
        r.grid.y == 1,
        r.grid.z == 1,
        r.shared_mem_bytes == 0,
{
    let c = cudarc::driver::LaunchConfig::for_num_elems(n);
    LaunchDims {
        grid: Dim3 { x: c.grid_dim.0, y: c.grid_dim.1, z: c.grid_dim.2 },
        block: Dim3 { x: c.block_dim.0, y: c.block_dim.1, z: c.block_dim.2 },
        shared_mem_bytes: c.shared_mem_bytes,
    }
}

/// The number of threads asked for when `count` elements are to be copied:
/// `count` itself, capped at the largest launch the driver can express.
pub open spec fn launch_threads(count: usize) -> int {
    if count <= u32::MAX {
        count as int
    } else {
        u32::MAX as int
    }
}

/// The launch geometry of the contiguity kernel for `count` elements:
/// one-dimensional, 1024 threads per block, one thread per element up to
/// `u32::MAX` elements. The kernel walks the output in steps of the grid
/// size, so a grid that is not empty reaches every element.
pub open spec fn launch_geometry(count: usize) -> LaunchDims {
    LaunchDims {
        grid: Dim3 { x: ((launch_threads(count) + 1023) / 1024) as u32, y: 1, z: 1 },
        block: Dim3 { x: 1024, y: 1, z: 1 },
        shared_mem_bytes: 0,
    }
}

/// Computes [`launch_geometry`]. The grid has a thread for every element
/// that is asked for, and is not empty unless `count` is zero.
pub fn launch_dims(count: usize) -> (r: LaunchDims)
    ensures
        r == launch_geometry(count),
        r.grid.x == (launch_threads(count) + 1023) / 1024,
        r.grid.x * r.block.x >= launch_threads(count),
        count > 0 ==> r.grid.x > 0,
{
    let n: u32 = if count <= u32::MAX as usize {
        count as u32
    } else {
        u32::MAX
    };
    for_num_elems(n)
}

/// Packs the metadata of a layout for the kernel: extents first, then
/// strides, each as wide as an index.
pub fn metadata(layout: &Layout) -> (r: Vec<usize>)
    ensures
        r@ == packed(layout@),
        r@.len() == 2 * layout@.rank(),
{
    let dims = layout.dims();
    let strides = layout.stride();
    let n = dims.len();
    let mut out: Vec<usize> = Vec::with_capacity(n);
    let mut j: usize = 0;
    while j < n
        invariant
            j <= n,
            n == dims@.len(),
            out@ == dims@.subrange(0, j as int),
        decreases n - j,
    {
        out.push(dims[j]);
        assert(out@ =~= dims@.subrange(0, j + 1));
        j = j + 1;
    }
    assert(out@ =~= dims@);
    let mut k: usize = 0;
    while k < n
        invariant
            k <= n,
            n == strides@.len(),
            out@ == dims@ + strides@.subrange(0, k as int),
        decreases n - k,
    {
        out.push(strides[k]);
        assert(out@ =~= dims@ + strides@.subrange(0, k + 1));
        k = k + 1;
    }
    assert(out@ =~= dims@ + strides@);
    out
}

/// Everything a launch of the contiguity kernel needs.
#[derive(Debug)]
pub struct CopyPlan {
    /// The name of the kernel variant for the element type.
    pub kernel: String,
    /// The number of elements to write.
    pub count: usize,
    /// The number of axes of the source.
    pub rank: usize,
    /// Extents followed by strides of the source.
    pub metadata: Vec<usize>,
    /// The part of the source buffer that the kernel reads: it starts at
    /// the offset of the layout, so the kernel addresses it from zero.
    pub source: Window,
    /// The launch geometry.
    pub launch: LaunchDims,
}

/// The layout that a metadata array describes to the kernel. The kernel is
/// handed a window that starts at the layout's offset, so it sees offset 0.
pub open spec fn described(rank: usize, info: Seq<usize>) -> LayoutView {
    LayoutView {
        dims: info.subrange(0, rank as int),
        strides: info.subrange(rank as int, 2 * rank),
        offset: 0,
    }
}

/// The arguments of a kernel call agree with each other: the metadata has
/// two entries per axis, `count` is the element count of the shape, and
/// every element lies within an input of `input_len` elements.
pub open spec fn well_described(
    count: usize,
    rank: usize,
    info: Seq<usize>,
    input_len: nat,
) -> bool {
    &&& info.len() == 2 * rank
    &&& described(rank, info).elem_count() == count
    &&& described(rank, info).fits(input_len as int)
}

/// The buffer position of the `i`-th element of `layout` in row-major
/// order, computed as the device kernel computes it: the coordinates are
/// peeled off from the last axis, and each is weighted by its stride.
fn source_position(layout: &Layout, i: usize, len: usize) -> (r: usize)
    requires
        layout@.fits(len as int),
        i < layout@.elem_count(),
    ensures
        r == layout@.source_index(i as int),
        r < len,
{
    let dims = layout.dims();
    let strides = layout.stride();
    let n = dims.len();
    let ghost d = ints(dims@);
    let ghost s = ints(strides@);
    let ghost total = layout@.source_index(i as int);
    proof {
        law_source_index_in_bounds(layout@, len as int, i as int);
        lemma_extents_positive(dims@);
        lemma_ints_non_negative(strides@);
        lemma_peeled_is_address(i as int, d, s);
        assert(d.take(n as int) =~= d);
        assert(s.take(n as int) =~= s);
    }
    let mut rem: usize = i;
    let mut acc: usize = layout.start_offset();
    let mut j: usize = n;
    while j > 0
        invariant
            j <= n,
            n == dims@.len(),
            n == strides@.len(),
            d == ints(dims@),
            s == ints(strides@),
            positive(d),
            non_negative(s),
            acc + peeled(rem as int, d.take(j as int), s.take(j as int)) == total,
            0 <= total < len,
        decreases j,
    {
        j = j - 1;
        proof {
            let dj = d.take(j + 1);
            let sj = s.take(j + 1);
            let front = d.take(j as int);
            let weights = s.take(j as int);
            assert(dj.take(j as int) =~= front);
            assert(sj.take(j as int) =~= weights);
            assert(dj[j as int] == dims@[j as int]);
            assert(sj[j as int] == strides@[j as int]);
            assert(1 <= d[j as int]);
            assert(0 <= s[j as int]);
            let extent = dims@[j as int] as int;
            let weight = strides@[j as int] as int;
            assert(peeled(rem as int, dj, sj) == (rem as int % extent) * weight + peeled(
                rem as int / extent,
                front,
                weights,
            ));
            assert forall|t: int| 0 <= t < front.len() implies 1 <= #[trigger] front[t] by {
                assert(1 <= d[t]);
            }
            assert forall|t: int| 0 <= t < weights.len() implies 0 <= #[trigger] weights[t] by {
                assert(0 <= s[t]);
            }
            assert(0 <= rem as int / extent && 0 <= (rem as int % extent) * weight)
                by (nonlinear_arith)
                requires
                    0 <= rem,
                    1 <= extent,
                    0 <= weight,
            ;
            lemma_peeled_non_negative(rem as int / extent, front, weights);
        }
        let c = rem % dims[j];
        rem = rem / dims[j];
        acc = acc + c * strides[j];
    }
    acc
}

/// The contiguity kernel on the host, with the argument list of the device
/// kernel: the element count, the rank, the metadata array (extents, then
/// strides) and the input window. Returns the dense output: element `i` is
/// the input element at the strided address of the `i`-th row-major index.
/// `None` when the arguments do not agree with each other.
pub fn ucopy<T: Copy>(count: usize, rank: usize, info: &[usize], input: &[T]) -> (r: Option<
    Vec<T>,
>)
    ensures
        match r {
            Some(out) => well_described(count, rank, info@, input@.len()) && out@ == gathered(
                input@,
                described(rank, info@),
            ),
            None => !well_described(count, rank, info@, input@.len()),
        },
{
    if info.len() % 2 != 0 || info.len() / 2 != rank {
        return None;
    }
    let ghost v = described(rank, info@);
    let mut dims: Vec<usize> = Vec::with_capacity(rank);
    let mut strides: Vec<usize> = Vec::with_capacity(rank);
    let m = info.len();
    let mut j: usize = 0;
    while j < rank
        invariant
            j <= rank,
            m == 2 * rank,
            info@.len() == 2 * rank,
            dims@ == info@.subrange(0, j as int),
            strides@ == info@.subrange(rank as int, rank + j),
        decreases rank - j,
    {
        dims.push(info[j]);
        strides.push(info[rank + j]);
        assert(dims@ =~= info@.subrange(0, j + 1));
        assert(strides@ =~= info@.subrange(rank as int, rank + j + 1));
        j = j + 1;
    }
    let layout = match Layout::new(dims, strides, 0) {
        Ok(l) => l,
        Err(_) => {
            return None;
        },
    };
    assert(layout@ == v);
    match layout.elem_count() {
        Some(c) => {
            if c != count {
                return None;
            }
        },
        None => {
            return None;
        },
    }
    if !layout.fits(input.len()) {
        return None;
    }
    let mut out: Vec<T> = Vec::with_capacity(count);
    let mut i: usize = 0;
    while i < count
        invariant
            i <= count,
            layout@ == v,
            count == v.elem_count(),
            v.fits(input@.len() as int),
            out@.len() == i,
            forall|k: int| 0 <= k < i ==> out@[k] == input@[v.source_index(k)],
        decreases count - i,
    {
        let pos = source_position(&layout, i, input.len());
        out.push(input[pos]);
        i = i + 1;
    }
    assert(out@ =~= gathered(input@, v));
    Some(out)
}

/// Gathering through a contiguous layout copies the window of the buffer
/// that starts at the offset.
pub proof fn law_gather_contiguous<T>(buffer: Seq<T>, v: LayoutView)
    requires
        v.wf(),
        v.is_contiguous(),
        v.fits(buffer.len() as int),
    ensures
        gathered(buffer, v) == buffer.subrange(v.offset as int, v.offset + v.elem_count()),
{
    lemma_extents_positive(v.dims);
    let g = gathered(buffer, v);
    let w = buffer.subrange(v.offset as int, v.offset + v.elem_count());
    if v.elem_count() > 0 {
        law_contiguous_is_dense(v, 0);
    }
    assert forall|i: int| 0 <= i < g.len() implies g[i] == w[i] by {
        law_contiguous_is_dense(v, i);
    }
    assert(g =~= w);
}

/// The `i`-th element of a transposed view is the element of the view it
/// was made from at the coordinates of `i` with the two axes exchanged. The
/// transposed view has as many elements and fits the same buffers.
pub proof fn law_gather_transposed<T>(buffer: Seq<T>, v: LayoutView, a: int, b: int, i: int)
    requires
        v.wf(),
        0 <= a < v.rank(),
        0 <= b < v.rank(),
        0 <= i < v.elem_count(),
    ensures
        gathered(buffer, v.transposed(a, b)).len() == gathered(buffer, v).len(),
        in_range(swapped(unravel(i, ints(v.transposed(a, b).dims)), a, b), ints(v.dims)),
        gathered(buffer, v.transposed(a, b))[i] == buffer[v.address(
            swapped(unravel(i, ints(v.transposed(a, b).dims)), a, b),
        )],
{
    let t = v.transposed(a, b);
    law_transpose_preserves_extent(v, a, b);
    law_transpose_involution(v, a, b);
    lemma_extents_positive(t.dims);
    let index = unravel(i, ints(t.dims));
    lemma_unravel_in_range(i, ints(t.dims));
    law_transpose_permutes_addressing(t, a, b, index);
}

} // verus!
