//! Tensors: a device buffer, shared or owned alone, seen through a layout
//! and tagged with the device it lives on.

use crate::dtype::DType;
use crate::error::{ShapeFault, TensorError};
use crate::index::{ints, lemma_address_bounds, product};
use crate::kernel::{
    described, gathered, launch_dims, launch_geometry, law_gather_contiguous, metadata, packed,
    well_described, CopyPlan,
};
use crate::layout::{
    canonical, law_canonical, law_contiguous_is_dense, law_source_index_in_bounds,
    law_transpose_involution, law_transpose_preserves_extent, lemma_extents_positive,
    lemma_ints_non_negative, representable, shape_count, Layout, LayoutView, Window,
};
use std::sync::Arc;
use vstd::prelude::*;

verus! {

/// The mathematical content of a [`Tensor`].
pub struct TensorView<B> {
    /// The buffer that holds the elements.
    pub data: B,
    /// The number of elements of the buffer.
    pub len: usize,
    /// How logical indices map into the buffer.
    pub layout: LayoutView,
    /// The identity of the device, and of its stream, that owns the buffer.
    pub device: usize,
}

impl<B> TensorView<B> {
    /// The buffer holds exactly the elements of the shape, and the layout
    /// addresses none beyond them.
    pub open spec fn wf(self) -> bool {
        &&& self.layout.wf()
        &&& self.layout.elem_count() == self.len
        &&& self.layout.fits(self.len as int)
    }
}

/// The largest buffer position, plus one, that a layout reaches, capped at
/// `usize::MAX`.
pub open spec fn required_len(v: LayoutView) -> usize {
    if v.offset + v.span() <= usize::MAX {
        (v.offset + v.span()) as usize
    } else {
        usize::MAX
    }
}

/// Why a buffer of `len` elements cannot be seen through layout `v`, if it
/// cannot.
pub open spec fn raw_fault(len: usize, v: LayoutView) -> Option<TensorError> {
    if v.elem_count() > usize::MAX {
        Some(TensorError::ShapeMismatch(ShapeFault::TooLarge))
    } else if v.elem_count() != len {
        Some(
            TensorError::ShapeMismatch(
                ShapeFault::ElementCount { expected: v.elem_count() as usize, actual: len },
            ),
        )
    } else if !v.fits(len as int) {
        Some(
            TensorError::ShapeMismatch(
                ShapeFault::OutOfBounds { required: required_len(v), available: len },
            ),
        )
    } else {
        None
    }
}

/// Why host data of `len` elements cannot fill a new tensor of shape
/// `shape`, if it cannot.
pub open spec fn host_fault(len: usize, shape: Seq<usize>) -> Option<TensorError> {
    if !representable(shape) {
        Some(TensorError::ShapeMismatch(ShapeFault::TooLarge))
    } else if product(ints(shape)) != len {
        Some(
            TensorError::ShapeMismatch(
                ShapeFault::ElementCount { expected: product(ints(shape)) as usize, actual: len },
            ),
        )
    } else {
        None
    }
}

/// `p` is the launch of the contiguity kernel that repacks tensor `t` of
/// element type `dtype`.
pub open spec fn copy_plan_for<B>(t: TensorView<B>, dtype: DType, p: CopyPlan) -> bool {
    &&& p.kernel@ == "ucopy_"@ + dtype.tag()
    &&& p.count == t.len
    &&& p.rank == t.layout.rank()
    &&& p.metadata@ == packed(t.layout)
    &&& p.source == (Window { start: t.layout.offset, len: t.layout.span() as usize })
    &&& p.launch == launch_geometry(t.len)
}

/// A buffer of type `B` on some device, seen through a layout. The buffer
/// is opaque to this crate. Tensors made by [`Tensor::transpose`] or by
/// cloning share the buffer of the tensor they were made from.
#[derive(Debug)]
pub struct Tensor<B> {
    data: Arc<B>,
    len: usize,
    layout: Layout,
    device: usize,
}

impl<B> Tensor<B> {
    /// The mathematical content of the tensor. (`view` is the window into
    /// the buffer, so the content has a name of its own.)
    pub closed spec fn model(&self) -> TensorView<B> {
        TensorView { data: *self.data, len: self.len, layout: self.layout@, device: self.device }
    }
}

/// `Arc::clone` of std: a second handle to the same allocation, so to an
/// equal value. Believed, not proved.
#[verifier::external_body]
fn share<B>(data: &Arc<B>) -> (r: Arc<B>)
    ensures
        r == *data,
{
    Arc::clone(data)
}

/// `Arc::strong_count` of std: the number of handles to the allocation
/// that are alive at the moment. It is no matter of the value, so nothing
/// is said of it.
#[verifier::external_body]
fn owners<B>(data: &Arc<B>) -> (r: usize) {
    Arc::strong_count(data)
}

/// `Arc::get_mut` of std: the value behind the handle, for writing, when no
/// other handle to it exists; what is written through the result is what
/// the handle holds afterwards. Whether another handle exists is not a
/// matter of the value, so nothing is said of when the result is `None`.
/// Believed, not proved.
#[verifier::external_body]
fn sole<B>(data: &mut Arc<B>) -> (r: Option<&mut B>)
    ensures
        match r {
            Some(b) => *b == **old(data) && **final(data) == *final(b),
            None => *final(data) == *old(data),
        },
    no_unwind
{
    Arc::get_mut(data)
}

/// `Arc::try_unwrap` of std: the value behind the handle, when no other
/// handle to it exists; else the handle back. Nothing is said of which of
/// the two it is. Believed, not proved.
#[verifier::external_body]
fn unwrap_sole<B>(data: Arc<B>) -> (r: Result<B, Arc<B>>)
    ensures
        match r {
            Ok(b) => b == *data,
            Err(a) => a == data,
        },
{
    Arc::try_unwrap(data)
}

impl<B> Clone for Tensor<B> {
    /// A second tensor over the same buffer.
    fn clone(&self) -> (r: Self)
        ensures
            r.model() == self.model(),
    {
        proof {
            use_type_invariant(self);
        }
        Tensor {
            data: share(&self.data),
            len: self.len,
            layout: self.layout.clone(),
            device: self.device,
        }
    }
}

impl<B> Tensor<B> {
    #[verifier::type_invariant]
    spec fn well_formed(self) -> bool {
        self.model().wf()
    }

    /// Wraps a buffer of `len` elements that lives on `device`. The buffer
    /// is opaque, so `len` is taken on the caller's word. Fails with a
    /// shape mismatch unless the shape of `layout` has exactly `len`
    /// elements and the layout addresses nothing beyond them.
    pub fn from_raw(data: B, len: usize, device: usize, layout: Layout) -> (r: Result<
        Tensor<B>,
        TensorError,
    >)
        ensures
            match r {
                Ok(t) => raw_fault(len, layout@) is None && t.model() == (TensorView {
                    data,
                    len,
                    layout: layout@,
                    device,
                }) && t.model().wf(),
                Err(e) => raw_fault(len, layout@) == Some(e),
            },
    {
        match layout.elem_count() {
            None => {
                return Err(TensorError::ShapeMismatch(ShapeFault::TooLarge));
            },
            Some(count) => {
                if count != len {
                    return Err(
                        TensorError::ShapeMismatch(
                            ShapeFault::ElementCount { expected: count, actual: len },
                        ),
                    );
                }
            },
        }
        if !layout.fits(len) {
            let required = match layout.span() {
                None => usize::MAX,
                Some(sp) => match layout.start_offset().checked_add(sp) {
                    None => usize::MAX,
                    Some(end) => end,
                },
            };
            return Err(
                TensorError::ShapeMismatch(ShapeFault::OutOfBounds { required, available: len }),
            );
        }
        Ok(Tensor { data: Arc::new(data), len, layout, device })
    }

    /// The extent of each axis.
    pub fn dims(&self) -> (r: &Vec<usize>)
        ensures
            r@ == self.model().layout.dims,
    {
        self.layout.dims()
    }

    /// The stride of each axis, in elements.
    pub fn stride(&self) -> (r: &Vec<usize>)
        ensures
            r@ == self.model().layout.strides,
    {
        self.layout.stride()
    }

    /// The shape: the extent of each axis.
    pub fn shape(&self) -> (r: &Vec<usize>)
        ensures
            r@ == self.model().layout.dims,
    {
        self.layout.dims()
    }

    /// The layout through which the buffer is seen.
    pub fn layout(&self) -> (r: &Layout)
        ensures
            r@ == self.model().layout,
            self.model().wf(),
    {
        proof {
            use_type_invariant(self);
        }
        &self.layout
    }

    /// The identity of the device and stream that the tensor lives on.
    pub fn stream(&self) -> (r: usize)
        ensures
            r == self.model().device,
    {
        self.device
    }

    /// The number of elements of the buffer.
    pub fn len(&self) -> (r: usize)
        ensures
            r == self.model().len,
            self.model().wf(),
    {
        proof {
            use_type_invariant(self);
        }
        self.len
    }

    /// The whole buffer, for reading.
    pub fn buffer(&self) -> (r: &B)
        ensures
            *r == self.model().data,
    {
        &self.data
    }

    /// The window of the buffer that the tensor reads: it starts at the
    /// offset of the layout and covers what the layout can address. It lies
    /// within the buffer.
    pub fn view(&self) -> (r: Window)
        ensures
            r.start == self.model().layout.offset,
            r.len == self.model().layout.span(),
            r.start + r.len <= self.model().len,
    {
        proof {
            use_type_invariant(self);
        }
        let len = match self.layout.span() {
            Some(sp) => sp,
            None => 0,
        };
        Window { start: self.layout.start_offset(), len }
    }

    /// The same buffer seen with axes `a` and `b` exchanged. Nothing is
    /// copied and no kernel runs: the result shares the buffer. Fails when
    /// either axis does not exist, naming the first that does not.
    pub fn transpose(&self, a: usize, b: usize) -> (r: Result<Tensor<B>, TensorError>)
        ensures
            match r {
                Ok(t) => {
                    &&& a < self.model().layout.rank()
                    &&& b < self.model().layout.rank()
                    &&& t.model() == transposed_tensor(self.model(), a as int, b as int)
                    &&& t.model().wf()
                },
                Err(e) => (a >= self.model().layout.rank() || b >= self.model().layout.rank()) && e
                    == TensorError::IndexOutOfRange {
                    axis: if a >= self.model().layout.rank() {
                        a
                    } else {
                        b
                    },
                    rank: self.model().layout.rank() as usize,
                },
            },
    {
        proof {
            use_type_invariant(self);
        }
        match self.layout.transpose(a, b) {
            Err(e) => Err(e),
            Ok(layout) => {
                proof {
                    law_transpose_preserves_extent(self.model().layout, a as int, b as int);
                }
                Ok(Tensor { data: share(&self.data), len: self.len, layout, device: self.device })
            },
        }
    }
}

/// Decides whether a buffer that `owners` tensors share may be written:
/// only a sole owner may write. Any other count is an access violation.
pub fn grant_exclusive(owners: usize) -> (r: Result<(), TensorError>)
    ensures
        r == if owners == 1 {
            Ok::<(), TensorError>(())
        } else {
            Err::<(), TensorError>(TensorError::AccessViolation)
        },
{
    if owners == 1 {
        Ok(())
    } else {
        Err(TensorError::AccessViolation)
    }
}

impl<B> Tensor<B> {
    /// The buffer for writing, with the window that the tensor addresses.
    /// Fails with an access violation while another tensor shares the
    /// buffer: shared tensors are read-only. Whoever writes is to leave the
    /// buffer at its length.
    pub fn view_mut(&mut self) -> (r: Result<(&mut B, Window), TensorError>)
        ensures
            match r {
                Ok((b, w)) => {
                    &&& *b == old(self).model().data
                    &&& w.start == old(self).model().layout.offset
                    &&& w.len == old(self).model().layout.span()
                    &&& w.start + w.len <= old(self).model().len
                    &&& final(self).model() == (TensorView {
                        data: *final(b),
                        ..old(self).model()
                    })
                },
                Err(e) => e == TensorError::AccessViolation && final(self).model() == old(
                    self,
                ).model(),
            },
    {
        proof {
            use_type_invariant(&*self);
        }
        let window = self.view();
        match grant_exclusive(owners(&self.data)) {
            Err(e) => {
                return Err(e);
            },
            Ok(_) => {},
        }
        match sole(&mut self.data) {
            Some(b) => Ok((b, window)),
            None => Err(TensorError::AccessViolation),
        }
    }

    /// Gives up the tensor for its buffer. Fails with an access violation
    /// while another tensor shares the buffer.
    pub fn into_slice(self) -> (r: Result<B, TensorError>)
        ensures
            match r {
                Ok(b) => b == self.model().data,
                Err(e) => e == TensorError::AccessViolation,
            },
    {
        match grant_exclusive(owners(&self.data)) {
            Err(e) => {
                return Err(e);
            },
            Ok(_) => {},
        }
        match unwrap_sole(self.data) {
            Ok(b) => Ok(b),
            Err(_) => Err(TensorError::AccessViolation),
        }
    }
}

/// `r` is what comes of a device step that ended in `o`: its buffer of
/// `len` elements on `device`, seen through `layout`, or its error
/// unchanged.
pub open spec fn wrapped<B>(
    o: Result<B, TensorError>,
    len: usize,
    layout: LayoutView,
    device: usize,
    r: Result<Tensor<B>, TensorError>,
) -> bool {
    match o {
        Ok(b) => match r {
            Ok(t) => t.model() == (TensorView { data: b, len, layout, device }) && t.model().wf(),
            Err(_) => false,
        },
        Err(e) => r == Err::<Tensor<B>, TensorError>(e),
    }
}

/// `r` is what [`Tensor::contiguous`] returns for tensor `t` when the
/// kernel launch behaves as `launch` does.
pub open spec fn made_contiguous<B, F: FnOnce(&CopyPlan) -> Result<B, TensorError>>(
    t: TensorView<B>,
    dtype: DType,
    launch: F,
    r: Result<Tensor<B>, TensorError>,
) -> bool {
    if t.layout.is_contiguous() {
        match r {
            Ok(c) => c.model() == t,
            Err(_) => false,
        }
    } else if !representable(t.layout.dims) {
        r == Err::<Tensor<B>, TensorError>(TensorError::ShapeMismatch(ShapeFault::TooLarge))
    } else {
        exists|p: CopyPlan, o: Result<B, TensorError>|
            copy_plan_for(t, dtype, p) && #[trigger] call_ensures(launch, (&p,), o) && wrapped(
                o,
                t.len,
                canonical(t.layout.dims),
                t.device,
                r,
            )
    }
}

impl<B> Tensor<B> {
    /// Checks that every tensor of `others` lives on the device of `self`.
    /// Fails with a device mismatch that names the device of the first
    /// tensor that does not.
    pub fn verify_all_same_device(&self, others: &[&Tensor<B>]) -> (r: Result<(), TensorError>)
        ensures
            match r {
                Ok(_) => forall|i: int|
                    0 <= i < others@.len() ==> (#[trigger] others@[i]).model().device
                        == self.model().device,
                Err(e) => exists|k: int|
                    {
                        &&& 0 <= k < others@.len()
                        &&& (#[trigger] others@[k]).model().device != self.model().device
                        &&& forall|i: int|
                            0 <= i < k ==> (#[trigger] others@[i]).model().device
                                == self.model().device
                        &&& e == TensorError::DeviceMismatch {
                            expected: self.model().device,
                            actual: others@[k].model().device,
                        }
                    },
            },
    {
        let n = others.len();
        let mut i: usize = 0;
        while i < n
            invariant
                i <= n,
                n == others@.len(),
                forall|j: int|
                    0 <= j < i ==> (#[trigger] others@[j]).model().device == self.model().device,
            decreases n - i,
        {
            let other = others[i];
            if other.device != self.device {
                assert(others@[i as int].model().device != self.model().device);
                return Err(
                    TensorError::DeviceMismatch { expected: self.device, actual: other.device },
                );
            }
            i = i + 1;
        }
        Ok(())
    }

    /// The launch of the contiguity kernel that would repack this tensor
    /// densely: kernel variant, element count, rank, packed metadata, the
    /// window to read and the launch geometry.
    pub fn copy_plan(&self, dtype: DType) -> (r: CopyPlan)
        ensures
            copy_plan_for(self.model(), dtype, r),
    {
        proof {
            use_type_invariant(self);
        }
        CopyPlan {
            kernel: dtype.copy_kernel(),
            count: self.len,
            rank: self.layout.rank(),
            metadata: metadata(&self.layout),
            source: self.view(),
            launch: launch_dims(self.len),
        }
    }

    /// A tensor with the same logical elements in a contiguous layout. A
    /// tensor that is contiguous already is shared, and nothing is
    /// launched. Otherwise `launch` is called once with the plan of the
    /// contiguity kernel; the buffer it returns, which is to hold the
    /// output of the kernel, is wrapped under the dense layout of the
    /// shape, and an error it returns is passed on unchanged.
    pub fn contiguous<F: FnOnce(&CopyPlan) -> Result<B, TensorError>>(
        &self,
        dtype: DType,
        launch: F,
    ) -> (r: Result<Tensor<B>, TensorError>)
        requires
            forall|p: CopyPlan|
                copy_plan_for(self.model(), dtype, p) ==> call_requires(launch, (&p,)),
        ensures
            made_contiguous(self.model(), dtype, launch, r),
    {
        proof {
            use_type_invariant(self);
        }
        if self.layout.is_contiguous() {
            return Ok(self.clone());
        }
        let layout = match Layout::contiguous(self.layout.dims().clone()) {
            Some(l) => l,
            None => {
                return Err(TensorError::ShapeMismatch(ShapeFault::TooLarge));
            },
        };
        let plan = self.copy_plan(dtype);
        let o = launch(&plan);
        proof {
            law_canonical(self.model().layout.dims);
        }
        let r = match o {
            Ok(b) => Ok(Tensor { data: Arc::new(b), len: self.len, layout, device: self.device }),
            Err(e) => Err(e),
        };
        assert(copy_plan_for(self.model(), dtype, plan) && call_ensures(launch, (&plan,), o)
            && wrapped(
            o,
            self.model().len,
            canonical(self.model().layout.dims),
            self.model().device,
            r,
        ));
        r
    }

    /// A tensor of shape `shape` on `device` that holds `data` in row-major
    /// order. Fails with a shape mismatch, before anything is uploaded,
    /// unless `data` has exactly as many elements as `shape`, or when the
    /// shape is too large to address. Otherwise
    /// `upload` is called once with `data`; the buffer it returns, which is
    /// to hold a copy of `data`, is wrapped under the dense layout of
    /// `shape`, and an error it returns is passed on unchanged.
    pub fn from_vec<T, F: FnOnce(&[T]) -> Result<B, TensorError>>(
        device: usize,
        data: &[T],
        shape: Vec<usize>,
        upload: F,
    ) -> (r: Result<Tensor<B>, TensorError>)
        requires
            host_fault(data@.len() as usize, shape@) is None ==> call_requires(upload, (data,)),
        ensures
            match host_fault(data@.len() as usize, shape@) {
                Some(e) => r == Err::<Tensor<B>, TensorError>(e),
                None => exists|o: Result<B, TensorError>|
                    #[trigger] call_ensures(upload, (data,), o) && wrapped(
                        o,
                        data@.len() as usize,
                        canonical(shape@),
                        device,
                        r,
                    ),
            },
    {
        let len = data.len();
        let ghost dims = shape@;
        let layout = match Layout::contiguous(shape) {
            Some(l) => l,
            None => {
                return Err(TensorError::ShapeMismatch(ShapeFault::TooLarge));
            },
        };
        proof {
            law_canonical(dims);
        }
        let count = match layout.elem_count() {
            Some(c) => c,
            None => {
                return Err(TensorError::ShapeMismatch(ShapeFault::TooLarge));
            },
        };
        if count != len {
            return Err(
                TensorError::ShapeMismatch(
                    ShapeFault::ElementCount { expected: count, actual: len },
                ),
            );
        }
        let o = upload(data);
        let r = match o {
            Ok(b) => Ok(Tensor { data: Arc::new(b), len, layout, device }),
            Err(e) => Err(e),
        };
        assert(call_ensures(upload, (data,), o) && wrapped(o, len, canonical(dims), device, r));
        r
    }

    /// A tensor of shape `shape` on `device` whose elements are all zero.
    /// Fails with a shape mismatch when the shape is too large to address.
    /// Otherwise `alloc` is called once with the element count; the buffer
    /// it returns, which is to hold that many zeros, is wrapped under the
    /// dense layout of `shape`, and an error it returns is passed on
    /// unchanged.
    pub fn from_zero<F: FnOnce(usize) -> Result<B, TensorError>>(
        device: usize,
        shape: Vec<usize>,
        alloc: F,
    ) -> (r: Result<Tensor<B>, TensorError>)
        requires
            representable(shape@) ==> call_requires(alloc, (shape_count(shape@),)),
        ensures
            !representable(shape@) ==> r == Err::<Tensor<B>, TensorError>(
                TensorError::ShapeMismatch(ShapeFault::TooLarge),
            ),
            representable(shape@) ==> exists|o: Result<B, TensorError>|
                #[trigger] call_ensures(alloc, (shape_count(shape@),), o) && wrapped(
                    o,
                    shape_count(shape@),
                    canonical(shape@),
                    device,
                    r,
                ),
    {
        let ghost dims = shape@;
        let layout = match Layout::contiguous(shape) {
            Some(l) => l,
            None => {
                return Err(TensorError::ShapeMismatch(ShapeFault::TooLarge));
            },
        };
        proof {
            law_canonical(dims);
        }
        let count = match layout.elem_count() {
            Some(c) => c,
            None => {
                return Err(TensorError::ShapeMismatch(ShapeFault::TooLarge));
            },
        };
        let o = alloc(count);
        let r = match o {
            Ok(b) => Ok(Tensor { data: Arc::new(b), len: count, layout, device }),
            Err(e) => Err(e),
        };
        assert(call_ensures(alloc, (count,), o) && wrapped(o, count, canonical(dims), device, r));
        r
    }
}

/// `r` is what reading back gives once making the tensor contiguous has
/// ended in `c`: the error of `c`, or what `download` returns for the
/// buffer of `c` and its window.
pub open spec fn read_back_from<B, T, G: FnOnce(&B, Window) -> Result<Vec<T>, TensorError>>(
    c: Result<Tensor<B>, TensorError>,
    download: G,
    r: Result<Vec<T>, TensorError>,
) -> bool {
    match c {
        Err(e) => r == Err::<Vec<T>, TensorError>(e),
        Ok(t) => call_ensures(
            download,
            (&t.model().data, Window { start: t.model().layout.offset, len: t.model().len }),
            r,
        ),
    }
}

/// `r` is what [`Tensor::to_vec`] returns for tensor `t` when the kernel
/// launch behaves as `launch` does and the copy to the host as `download`.
pub open spec fn read_back<B, T, F, G>(
    t: TensorView<B>,
    dtype: DType,
    launch: F,
    download: G,
    r: Result<Vec<T>, TensorError>,
) -> bool where
    F: FnOnce(&CopyPlan) -> Result<B, TensorError>,
    G: FnOnce(&B, Window) -> Result<Vec<T>, TensorError>,
 {
    exists|c: Result<Tensor<B>, TensorError>| #[trigger]
        made_contiguous(t, dtype, launch, c) && read_back_from(c, download, r)
}

impl<B> Tensor<B> {
    /// The logical elements in row-major order, on the host. The tensor is
    /// first made contiguous (see [`Tensor::contiguous`]); then `download`
    /// is called once with the buffer and its window, and what it returns
    /// is returned: the copy of that window, or its error.
    pub fn to_vec<T, F, G>(&self, dtype: DType, launch: F, download: G) -> (r: Result<
        Vec<T>,
        TensorError,
    >) where
        F: FnOnce(&CopyPlan) -> Result<B, TensorError>,
        G: FnOnce(&B, Window) -> Result<Vec<T>, TensorError>,

        requires
            forall|p: CopyPlan|
                copy_plan_for(self.model(), dtype, p) ==> call_requires(launch, (&p,)),
            forall|b: B, w: Window| w.len == self.model().len ==> call_requires(download, (&b, w)),
        ensures
            read_back(self.model(), dtype, launch, download, r),
    {
        proof {
            use_type_invariant(self);
        }
        let c = self.contiguous(dtype, launch);
        match c {
            Err(e) => {
                let r = Err(e);
                assert(made_contiguous(self.model(), dtype, launch, c) && read_back_from(
                    c,
                    download,
                    r,
                ));
                r
            },
            Ok(t) => {
                proof {
                    use_type_invariant(&t);
                    lemma_made_contiguous_is_dense(self.model(), dtype, launch, t);
                }
                let w = t.view();
                let r = download(t.buffer(), w);
                assert(made_contiguous(self.model(), dtype, launch, c) && read_back_from(
                    c,
                    download,
                    r,
                ));
                r
            },
        }
    }
}

/// What [`Tensor::contiguous`] returns has a contiguous layout and the
/// shape and element count of the tensor it was made from.
pub proof fn lemma_made_contiguous_is_dense<B, F: FnOnce(&CopyPlan) -> Result<B, TensorError>>(
    t: TensorView<B>,
    dtype: DType,
    launch: F,
    c: Tensor<B>,
)
    requires
        t.wf(),
        made_contiguous(t, dtype, launch, Ok(c)),
    ensures
        c.model().wf(),
        c.model().layout.is_contiguous(),
        c.model().layout.dims == t.layout.dims,
        c.model().len == t.len,
        c.model().device == t.device,
        c.model().layout.span() == t.len,
{
    if !t.layout.is_contiguous() {
        law_canonical(t.layout.dims);
    } else {
        if t.layout.elem_count() > 0 {
            law_contiguous_is_dense(t.layout, 0);
        }
    }
}

/// The plan of the contiguity kernel agrees with itself and with the
/// tensor: run on the window it names, the kernel writes the logical
/// elements of the tensor in row-major order.
pub proof fn law_copy_plan_gathers<B, T>(
    t: TensorView<B>,
    dtype: DType,
    p: CopyPlan,
    buffer: Seq<T>,
)
    requires
        t.wf(),
        copy_plan_for(t, dtype, p),
        buffer.len() == t.len,
    ensures
        p.source.start + p.source.len <= buffer.len(),
        well_described(p.count, p.rank, p.metadata@, p.source.len as nat),
        gathered(
            buffer.subrange(p.source.start as int, p.source.start + p.source.len),
            described(p.rank, p.metadata@),
        ) == gathered(buffer, t.layout),
{
    let v = t.layout;
    let d = described(p.rank, p.metadata@);
    lemma_extents_positive(v.dims);
    lemma_ints_non_negative(v.strides);
    assert(d.dims =~= v.dims);
    assert(d.strides =~= v.strides);
    if v.elem_count() > 0 {
        lemma_address_bounds(
            Seq::new(v.dims.len(), |j: int| 0int),
            ints(v.dims),
            ints(v.strides),
        );
    }
    let window = buffer.subrange(p.source.start as int, p.source.start + p.source.len);
    let g = gathered(window, d);
    let h = gathered(buffer, v);
    assert forall|i: int| 0 <= i < g.len() implies g[i] == h[i] by {
        law_source_index_in_bounds(d, p.source.len as int, i);
        assert(v.source_index(i) == v.offset + d.source_index(i));
    }
    assert(g =~= h);
}

/// Whenever `launch` returns a buffer, the buffer holds what the
/// contiguity kernel writes when it reads the window of `source` that the
/// plan names. `contents` says which elements a buffer holds.
pub open spec fn runs_kernel<B, T, F: FnOnce(&CopyPlan) -> Result<B, TensorError>>(
    launch: F,
    contents: spec_fn(B) -> Seq<T>,
    source: B,
) -> bool {
    forall|p: CopyPlan, o: Result<B, TensorError>| #[trigger]
        call_ensures(launch, (&p,), o) ==> match o {
            Ok(b) => contents(b) == gathered(
                contents(source).subrange(p.source.start as int, p.source.start + p.source.len),
                described(p.rank, p.metadata@),
            ),
            Err(_) => true,
        }
}

/// Whenever `download` returns a vector, the vector holds the elements of
/// the window it was given.
pub open spec fn copies_window<B, T, G: FnOnce(&B, Window) -> Result<Vec<T>, TensorError>>(
    download: G,
    contents: spec_fn(B) -> Seq<T>,
) -> bool {
    forall|b: B, w: Window, o: Result<Vec<T>, TensorError>| #[trigger]
        call_ensures(download, (&b, w), o) ==> match o {
            Ok(v) => v@ == contents(b).subrange(w.start as int, w.start + w.len),
            Err(_) => true,
        }
}

/// The tensor with axes `a` and `b` exchanged: what [`Tensor::transpose`]
/// returns.
pub open spec fn transposed_tensor<B>(t: TensorView<B>, a: int, b: int) -> TensorView<B> {
    TensorView { layout: t.layout.transposed(a, b), ..t }
}

/// Transposing a tensor twice over the same pair of axes gives a tensor
/// with the layout, the buffer and the device of the first, and so with
/// the same logical elements.
pub proof fn law_transpose_twice<B, T>(t: TensorView<B>, a: int, b: int, buffer: Seq<T>)
    requires
        t.wf(),
        0 <= a < t.layout.rank(),
        0 <= b < t.layout.rank(),
    ensures
        transposed_tensor(t, a, b).wf(),
        transposed_tensor(transposed_tensor(t, a, b), a, b) == t,
        gathered(buffer, transposed_tensor(transposed_tensor(t, a, b), a, b).layout) == gathered(
            buffer,
            t.layout,
        ),
{
    law_transpose_involution(t.layout, a, b);
    law_transpose_preserves_extent(t.layout, a, b);
}

/// Making a tensor contiguous keeps its logical elements, whenever the
/// launch runs the contiguity kernel: the result has a contiguous layout
/// of the same shape, and read in row-major order it holds what the
/// tensor held.
pub proof fn law_contiguous_keeps_elements<B, T, F: FnOnce(&CopyPlan) -> Result<B, TensorError>>(
    t: TensorView<B>,
    dtype: DType,
    launch: F,
    contents: spec_fn(B) -> Seq<T>,
    c: Tensor<B>,
)
    requires
        t.wf(),
        contents(t.data).len() == t.len,
        runs_kernel(launch, contents, t.data),
        made_contiguous(t, dtype, launch, Ok(c)),
    ensures
        c.model().wf(),
        c.model().layout.is_contiguous(),
        c.model().layout.dims == t.layout.dims,
        contents(c.model().data).len() == c.model().len,
        gathered(contents(c.model().data), c.model().layout) == gathered(
            contents(t.data),
            t.layout,
        ),
{
    lemma_made_contiguous_is_dense(t, dtype, launch, c);
    if !t.layout.is_contiguous() {
        let (p, o) = choose|p: CopyPlan, o: Result<B, TensorError>|
            copy_plan_for(t, dtype, p) && #[trigger] call_ensures(launch, (&p,), o) && wrapped(
                o,
                t.len,
                canonical(t.layout.dims),
                t.device,
                Ok(c),
            );
        law_copy_plan_gathers(t, dtype, p, contents(t.data));
        let g = gathered(contents(t.data), t.layout);
        assert(contents(c.model().data) == g);
        law_canonical(t.layout.dims);
        law_gather_contiguous(g, canonical(t.layout.dims));
        assert(g.subrange(0, g.len() as int) =~= g);
    }
}

/// Making a tensor contiguous twice gives a tensor with a contiguous
/// layout that holds the logical elements of the first, whenever both
/// launches run the contiguity kernel.
pub proof fn law_contiguous_twice<B, T, F, G>(
    t: TensorView<B>,
    dtype: DType,
    first: F,
    second: G,
    contents: spec_fn(B) -> Seq<T>,
    once: Tensor<B>,
    twice: Tensor<B>,
) where
    F: FnOnce(&CopyPlan) -> Result<B, TensorError>,
    G: FnOnce(&CopyPlan) -> Result<B, TensorError>,

    requires
        t.wf(),
        contents(t.data).len() == t.len,
        runs_kernel(first, contents, t.data),
        made_contiguous(t, dtype, first, Ok(once)),
        runs_kernel(second, contents, once.model().data),
        made_contiguous(once.model(), dtype, second, Ok(twice)),
    ensures
        twice.model().layout.is_contiguous(),
        twice.model() == once.model(),
        gathered(contents(twice.model().data), twice.model().layout) == gathered(
            contents(t.data),
            t.layout,
        ),
{
    law_contiguous_keeps_elements(t, dtype, first, contents, once);
    law_contiguous_keeps_elements(once.model(), dtype, second, contents, twice);
}

/// Reading a tensor back gives its logical elements in row-major order,
/// whenever the launch runs the contiguity kernel and the download copies
/// the window it is given.
pub proof fn law_to_vec_reads_elements<B, T, F, G>(
    t: TensorView<B>,
    dtype: DType,
    launch: F,
    download: G,
    contents: spec_fn(B) -> Seq<T>,
    v: Vec<T>,
) where
    F: FnOnce(&CopyPlan) -> Result<B, TensorError>,
    G: FnOnce(&B, Window) -> Result<Vec<T>, TensorError>,

    requires
        t.wf(),
        contents(t.data).len() == t.len,
        runs_kernel(launch, contents, t.data),
        copies_window(download, contents),
        read_back(t, dtype, launch, download, Ok(v)),
    ensures
        v@ == gathered(contents(t.data), t.layout),
{
    let r = Ok::<Vec<T>, TensorError>(v);
    let c = choose|c: Result<Tensor<B>, TensorError>| #[trigger]
        made_contiguous(t, dtype, launch, c) && read_back_from(c, download, r);
    let dense = c->Ok_0;
    law_contiguous_keeps_elements(t, dtype, launch, contents, dense);
    let m = dense.model();
    law_gather_contiguous(contents(m.data), m.layout);
    if m.layout.elem_count() > 0 {
        law_contiguous_is_dense(m.layout, 0);
    }
}

} // verus!
