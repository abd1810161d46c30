//! The batched linear operator: for every batch index, the product of the
//! input with the transposed weight, plus an optional bias.
//!
//! The operator multiplies nothing itself. It validates the operands,
//! derives the configuration of the batched matmul primitive, and wraps the
//! buffer that the primitive filled.

use crate::error::{Operand, ShapeFault, TensorError};
use crate::index::{dot, in_range, ints, product, unravel};
use crate::kernel::gathered;
use crate::layout::{
    canonical, law_addresses_in_bounds, law_canonical, representable, shape_count, Layout,
    LayoutView, Window,
};
use crate::tensor::{wrapped, Tensor, TensorView};
use vstd::prelude::*;

verus! {

/// The configuration of one call of the batched matmul primitive, which
/// computes `C = alpha * op(A) * op(B) + beta * C`, plus the bias, for every
/// batch index, on column-major matrices. `A` is the input, `B` the weight,
/// `C` the output.
#[derive(Clone, Copy, Debug, PartialEq, Eq)]
pub struct MatmulPlan {
    /// Whether `A` is read transposed.
    pub transa: bool,
    /// Whether `B` is read transposed.
    pub transb: bool,
    /// Rows of `op(A)` and of `C`.
    pub m: u64,
    /// Columns of `op(B)` and of `C`.
    pub n: u64,
    /// Columns of `op(A)` and rows of `op(B)`.
    pub k: u64,
    /// The factor of the product.
    pub alpha: i32,
    /// The factor of what the output held before.
    pub beta: i32,
    /// Leading dimension of `A`.
    pub lda: i64,
    /// Leading dimension of `B`.
    pub ldb: i64,
    /// Leading dimension of `C`.
    pub ldc: i64,
    /// Elements between the matrices of consecutive batches in `A`.
    pub stride_a: i64,
    /// Elements between the matrices of consecutive batches in `B`.
    pub stride_b: i64,
    /// Elements between the matrices of consecutive batches in `C`.
    pub stride_c: i64,
    /// Elements between the bias vectors of consecutive batches; `None`
    /// when all batches read the same vector, or there is no bias.
    pub stride_bias: Option<i64>,
    /// The number of batches.
    pub batch_size: i32,
    /// The window of the input buffer that holds `A`.
    pub input: Window,
    /// The window of the weight buffer that holds `B`.
    pub weight: Window,
    /// The window of the bias buffer that holds the bias, if there is one.
    pub bias: Option<Window>,
    /// The number of elements of the output buffer.
    pub out_len: usize,
}

/// The first operand that does not live on the device of the weight, as
/// an error.
pub open spec fn device_fault<B>(
    weight: TensorView<B>,
    bias: Option<TensorView<B>>,
    input: TensorView<B>,
) -> Option<TensorError> {
    if input.device != weight.device {
        Some(TensorError::DeviceMismatch { expected: weight.device, actual: input.device })
    } else {
        match bias {
            Some(b) => if b.device != weight.device {
                Some(TensorError::DeviceMismatch { expected: weight.device, actual: b.device })
            } else {
                None
            },
            None => None,
        }
    }
}

/// What is wrong with the shapes of input `x` and weight `w`: both are to
/// have three axes, `(batch, rows_in, reduce_dim)` and
/// `(batch, cols_out, reduce_dim)`, with equal reduce axes. The batch
/// extent of the weight is that of the input, or 1 where the weight is
/// declared to be shared by all batches.
pub open spec fn operand_fault(x: LayoutView, w: LayoutView, broadcast: bool) -> Option<
    ShapeFault,
> {
    if x.rank() != 3 {
        Some(
            ShapeFault::OperandRank {
                operand: Operand::Input,
                expected: 3,
                actual: x.rank() as usize,
            },
        )
    } else if w.rank() != 3 {
        Some(
            ShapeFault::OperandRank {
                operand: Operand::Weight,
                expected: 3,
                actual: w.rank() as usize,
            },
        )
    } else if w.dims[2] != x.dims[2] {
        Some(ShapeFault::ReduceDim { expected: x.dims[2], actual: w.dims[2] })
    } else if broadcast && w.dims[0] != 1 {
        Some(ShapeFault::Batch { operand: Operand::Weight, expected: 1, actual: w.dims[0] })
    } else if !broadcast && w.dims[0] != x.dims[0] {
        Some(ShapeFault::Batch { operand: Operand::Weight, expected: x.dims[0], actual: w.dims[0] })
    } else {
        None
    }
}

/// What is wrong with the shape of bias `b` for `batch` batches of `m`
/// input rows: it is to be `(m)`, shared by all batches, or `(batch, m)`.
pub open spec fn bias_fault(b: LayoutView, batch: usize, m: usize) -> Option<ShapeFault> {
    if b.rank() == 1 {
        if b.dims[0] != m {
            Some(ShapeFault::BiasLength { expected: m, actual: b.dims[0] })
        } else {
            None
        }
    } else if b.rank() == 2 {
        if b.dims[1] != m {
            Some(ShapeFault::BiasLength { expected: m, actual: b.dims[1] })
        } else if b.dims[0] != batch {
            Some(ShapeFault::Batch { operand: Operand::Bias, expected: batch, actual: b.dims[0] })
        } else {
            None
        }
    } else {
        Some(
            ShapeFault::OperandRank {
                operand: Operand::Bias,
                expected: 2,
                actual: b.rank() as usize,
            },
        )
    }
}

/// What keeps the matrices of a three-axis operand from being dense: the
/// last axis is to have stride 1 and the middle axis the extent of the
/// last as its stride. The batch stride is free.
pub open spec fn matrix_fault(operand: Operand, v: LayoutView) -> Option<ShapeFault> {
    if v.strides[2] != 1 {
        Some(ShapeFault::Stride { operand, axis: 2, expected: 1, actual: v.strides[2] })
    } else if v.strides[1] != v.dims[2] {
        Some(ShapeFault::Stride { operand, axis: 1, expected: v.dims[2], actual: v.strides[1] })
    } else {
        None
    }
}

/// What keeps the vectors of a bias of one or two axes from being dense:
/// the last axis is to have stride 1.
pub open spec fn vector_fault(v: LayoutView) -> Option<ShapeFault> {
    let last = v.rank() - 1;
    if v.strides[last] != 1 {
        Some(
            ShapeFault::Stride {
                operand: Operand::Bias,
                axis: last as usize,
                expected: 1,
                actual: v.strides[last],
            },
        )
    } else {
        None
    }
}

/// The shape of the output: `(batch, cols_out, rows_in)`.
pub open spec fn out_dims(x: LayoutView, w: LayoutView) -> Seq<usize> {
    seq![x.dims[0], w.dims[1], x.dims[1]]
}

/// Every number of the configuration fits the integer type that the
/// matmul primitive gives it, and the output can be addressed.
pub open spec fn within_limits(
    x: LayoutView,
    w: LayoutView,
    bias: Option<LayoutView>,
    broadcast: bool,
) -> bool {
    &&& representable(out_dims(x, w))
    &&& x.dims[0] <= i32::MAX
    &&& x.dims[1] <= i64::MAX
    &&& x.dims[2] <= i64::MAX
    &&& w.dims[1] * x.dims[1] <= i64::MAX
    &&& x.strides[0] <= i64::MAX
    &&& !broadcast ==> w.strides[0] <= i64::MAX
    &&& bias matches Some(b) ==> b.rank() == 2 ==> b.strides[0] <= i64::MAX
}

/// The first fault of the shapes and strides of the operands, if any.
pub open spec fn shape_fault(
    x: LayoutView,
    w: LayoutView,
    bias: Option<LayoutView>,
    broadcast: bool,
) -> Option<ShapeFault> {
    if operand_fault(x, w, broadcast) is Some {
        operand_fault(x, w, broadcast)
    } else if bias is Some && bias_fault(bias->0, x.dims[0], x.dims[1]) is Some {
        bias_fault(bias->0, x.dims[0], x.dims[1])
    } else if matrix_fault(Operand::Input, x) is Some {
        matrix_fault(Operand::Input, x)
    } else if matrix_fault(Operand::Weight, w) is Some {
        matrix_fault(Operand::Weight, w)
    } else if bias is Some && vector_fault(bias->0) is Some {
        vector_fault(bias->0)
    } else if !within_limits(x, w, bias, broadcast) {
        Some(ShapeFault::TooLarge)
    } else {
        None
    }
}

/// The layouts of an optional bias.
pub open spec fn bias_layout<B>(bias: Option<TensorView<B>>) -> Option<LayoutView> {
    match bias {
        Some(b) => Some(b.layout),
        None => None,
    }
}

/// Why the operator cannot run on these operands, if it cannot: the
/// first device mismatch, else the first fault of shapes and strides.
pub open spec fn forward_fault<B>(
    weight: TensorView<B>,
    bias: Option<TensorView<B>>,
    broadcast: bool,
    input: TensorView<B>,
) -> Option<TensorError> {
    if device_fault(weight, bias, input) is Some {
        device_fault(weight, bias, input)
    } else {
        match shape_fault(input.layout, weight.layout, bias_layout(bias), broadcast) {
            Some(f) => Some(TensorError::ShapeMismatch(f)),
            None => None,
        }
    }
}

/// The part of a buffer that a layout reaches.
pub open spec fn window_of(v: LayoutView) -> Window {
    Window { start: v.offset, len: v.span() as usize }
}

/// The configuration of the matmul primitive for operands without fault.
/// With `A` the input and `B` the weight, both read as column-major
/// matrices of leading dimension `k`, `A` transposed, the primitive writes
/// the column-major `m x n` product of every batch, which is the row-major
/// `(cols_out, rows_in)` matrix of the output.
pub open spec fn plan_for(
    x: LayoutView,
    w: LayoutView,
    bias: Option<LayoutView>,
    broadcast: bool,
) -> MatmulPlan {
    MatmulPlan {
        transa: true,
        transb: false,
        m: x.dims[1] as u64,
        n: w.dims[1] as u64,
        k: x.dims[2] as u64,
        alpha: 1,
        beta: 0,
        lda: x.dims[2] as i64,
        ldb: x.dims[2] as i64,
        ldc: x.dims[1] as i64,
        stride_a: x.strides[0] as i64,
        stride_b: if broadcast {
            0
        } else {
            w.strides[0] as i64
        },
        stride_c: (w.dims[1] * x.dims[1]) as i64,
        stride_bias: match bias {
            Some(b) => if b.rank() == 2 {
                Some(b.strides[0] as i64)
            } else {
                None
            },
            None => None,
        },
        batch_size: x.dims[0] as i32,
        input: window_of(x),
        weight: window_of(w),
        bias: match bias {
            Some(b) => Some(window_of(b)),
            None => None,
        },
        out_len: shape_count(out_dims(x, w)),
    }
}

/// `r` is what [`Linear::forward`] returns for these operands when the
/// matmul primitive behaves as `matmul` does: the fault of the operands, if
/// they have one; else what comes of the one call of `matmul` with the
/// configuration, its buffer wrapped as a dense tensor of shape
/// `(batch, cols_out, rows_in)` on the device of the input.
pub open spec fn forwarded<B, F: FnOnce(&MatmulPlan) -> Result<B, TensorError>>(
    weight: TensorView<B>,
    bias: Option<TensorView<B>>,
    broadcast: bool,
    input: TensorView<B>,
    matmul: F,
    r: Result<Tensor<B>, TensorError>,
) -> bool {
    let plan = plan_for(input.layout, weight.layout, bias_layout(bias), broadcast);
    match forward_fault(weight, bias, broadcast, input) {
        Some(e) => r == Err::<Tensor<B>, TensorError>(e),
        None => exists|o: Result<B, TensorError>| #[trigger]
            call_ensures(matmul, (&plan,), o) && wrapped(
                o,
                plan.out_len,
                canonical(out_dims(input.layout, weight.layout)),
                input.device,
                r,
            ),
    }
}

/// A linear layer: a weight of shape `(batch, cols_out, reduce_dim)` and,
/// optionally, a bias of shape `(rows_in)` or `(batch, rows_in)`.
#[derive(Debug)]
pub struct Linear<B> {
    pub weight: Tensor<B>,
    pub bias: Option<Tensor<B>>,
    /// Whether the one matrix of the weight is shared by all batches of
    /// the input. The weight then has batch extent 1.
    pub broadcast_weight: bool,
}

/// Whether `x` can be the value of an `i64`.
fn fits_i64(x: usize) -> (r: bool)
    ensures
        r == (x <= i64::MAX),
{
    x as u64 <= 0x7fff_ffff_ffff_ffff
}

/// Whether `x` can be the value of an `i32`.
fn fits_i32(x: usize) -> (r: bool)
    ensures
        r == (x <= i32::MAX),
{
    x as u64 <= 0x7fff_ffff
}

/// The element count and the first stride of the dense layout of a shape
/// of three axes.
proof fn lemma_three_axes(a: usize, b: usize, c: usize)
    ensures
        product(ints(seq![a, b, c])) == a * (b * c),
        product(ints(seq![a, b, c]).skip(1)) == b * c,
        product(ints(seq![a, b, c]).skip(2)) == c,
{
    let d = ints(seq![a, b, c]);
    reveal_with_fuel(product, 4);
    assert(d.skip(1) =~= seq![b as int, c as int]);
    assert(d.skip(1).skip(1) =~= seq![c as int]);
    assert(d.skip(2) =~= seq![c as int]);
    assert(d.skip(1).skip(1).skip(1) =~= Seq::<int>::empty());
    assert(seq![c as int].skip(1) =~= Seq::<int>::empty());
    assert(product(seq![c as int]) == c) by {
        assert(product(seq![c as int]) == c * product(seq![c as int].skip(1)));
    }
    assert(product(d.skip(1)) == b * product(d.skip(1).skip(1)));
    assert(product(d) == a * product(d.skip(1)));
}

impl<B> Linear<B> {
    /// The content of the bias, if there is one.
    pub open spec fn bias_model(&self) -> Option<TensorView<B>> {
        match self.bias {
            Some(b) => Some(b.model()),
            None => None,
        }
    }

    /// Why [`Linear::forward`] fails on `input`, if it does.
    pub open spec fn fault(&self, input: TensorView<B>) -> Option<TensorError> {
        forward_fault(self.weight.model(), self.bias_model(), self.broadcast_weight, input)
    }

    /// The configuration that [`Linear::forward`] hands to the matmul
    /// primitive for `input`.
    pub open spec fn plan_spec(&self, input: TensorView<B>) -> MatmulPlan {
        plan_for(
            input.layout,
            self.weight.model().layout,
            bias_layout(self.bias_model()),
            self.broadcast_weight,
        )
    }

    /// A layer whose weight has one matrix for each batch of the input.
    pub fn new(weight: Tensor<B>, bias: Option<Tensor<B>>) -> (r: Self)
        ensures
            r.weight == weight,
            r.bias == bias,
            !r.broadcast_weight,
    {
        Linear { weight, bias, broadcast_weight: false }
    }

    /// A layer whose weight has a single matrix that all batches of the
    /// input share. Sharing is never inferred from the shapes: it has to be
    /// asked for here.
    pub fn with_shared_weight(weight: Tensor<B>, bias: Option<Tensor<B>>) -> (r: Self)
        ensures
            r.weight == weight,
            r.bias == bias,
            r.broadcast_weight,
    {
        Linear { weight, bias, broadcast_weight: true }
    }

    /// Validates the operands and derives the configuration of the matmul
    /// primitive. Nothing is launched. Fails with the first device
    /// mismatch, else with the first fault of shapes and strides.
    pub fn plan(&self, input: &Tensor<B>) -> (r: Result<MatmulPlan, TensorError>)
        ensures
            match r {
                Ok(p) => self.fault(input.model()) is None && p == self.plan_spec(input.model()),
                Err(e) => self.fault(input.model()) == Some(e),
            },
    {
        let device = self.weight.stream();
        if input.stream() != device {
            return Err(TensorError::DeviceMismatch { expected: device, actual: input.stream() });
        }
        match &self.bias {
            Some(b) => {
                if b.stream() != device {
                    return Err(
                        TensorError::DeviceMismatch { expected: device, actual: b.stream() },
                    );
                }
            },
            None => {},
        }
        let x_layout = input.layout();
        let w_layout = self.weight.layout();
        let xd = x_layout.dims();
        let wd = w_layout.dims();
        let xs = x_layout.stride();
        let ws = w_layout.stride();
        if xd.len() != 3 {
            return Err(
                TensorError::ShapeMismatch(
                    ShapeFault::OperandRank {
                        operand: Operand::Input,
                        expected: 3,
                        actual: xd.len(),
                    },
                ),
            );
        }
        if wd.len() != 3 {
            return Err(
                TensorError::ShapeMismatch(
                    ShapeFault::OperandRank {
                        operand: Operand::Weight,
                        expected: 3,
                        actual: wd.len(),
                    },
                ),
            );
        }
        let (batch, m, k) = (xd[0], xd[1], xd[2]);
        let n = wd[1];
        if wd[2] != k {
            return Err(
                TensorError::ShapeMismatch(ShapeFault::ReduceDim { expected: k, actual: wd[2] }),
            );
        }
        if self.broadcast_weight {
            if wd[0] != 1 {
                return Err(
                    TensorError::ShapeMismatch(
                        ShapeFault::Batch { operand: Operand::Weight, expected: 1, actual: wd[0] },
                    ),
                );
            }
        } else {
            if wd[0] != batch {
                return Err(
                    TensorError::ShapeMismatch(
                        ShapeFault::Batch {
                            operand: Operand::Weight,
                            expected: batch,
                            actual: wd[0],
                        },
                    ),
                );
            }
        }
        match &self.bias {
            Some(b) => {
                let bd = b.layout().dims();
                if bd.len() == 1 {
                    if bd[0] != m {
                        return Err(
                            TensorError::ShapeMismatch(
                                ShapeFault::BiasLength { expected: m, actual: bd[0] },
                            ),
                        );
                    }
                } else if bd.len() == 2 {
                    if bd[1] != m {
                        return Err(
                            TensorError::ShapeMismatch(
                                ShapeFault::BiasLength { expected: m, actual: bd[1] },
                            ),
                        );
                    }
                    if bd[0] != batch {
                        return Err(
                            TensorError::ShapeMismatch(
                                ShapeFault::Batch {
                                    operand: Operand::Bias,
                                    expected: batch,
                                    actual: bd[0],
                                },
                            ),
                        );
                    }
                } else {
                    return Err(
                        TensorError::ShapeMismatch(
                            ShapeFault::OperandRank {
                                operand: Operand::Bias,
                                expected: 2,
                                actual: bd.len(),
                            },
                        ),
                    );
                }
            },
            None => {},
        }
        if xs[2] != 1 {
            return Err(
                TensorError::ShapeMismatch(
                    ShapeFault::Stride {
                        operand: Operand::Input,
                        axis: 2,
                        expected: 1,
                        actual: xs[2],
                    },
                ),
            );
        }
        if xs[1] != k {
            return Err(
                TensorError::ShapeMismatch(
                    ShapeFault::Stride {
                        operand: Operand::Input,
                        axis: 1,
                        expected: k,
                        actual: xs[1],
                    },
                ),
            );
        }
        if ws[2] != 1 {
            return Err(
                TensorError::ShapeMismatch(
                    ShapeFault::Stride {
                        operand: Operand::Weight,
                        axis: 2,
                        expected: 1,
                        actual: ws[2],
                    },
                ),
            );
        }
        if ws[1] != k {
            return Err(
                TensorError::ShapeMismatch(
                    ShapeFault::Stride {
                        operand: Operand::Weight,
                        axis: 1,
                        expected: k,
                        actual: ws[1],
                    },
                ),
            );
        }
        let mut stride_bias: Option<i64> = None;
        let mut bias_window: Option<Window> = None;
        let mut bias_fits = true;
        match &self.bias {
            Some(b) => {
                let bs = b.layout().stride();
                let last = bs.len() - 1;
                if bs[last] != 1 {
                    return Err(
                        TensorError::ShapeMismatch(
                            ShapeFault::Stride {
                                operand: Operand::Bias,
                                axis: last,
                                expected: 1,
                                actual: bs[last],
                            },
                        ),
                    );
                }
                if bs.len() == 2 {
                    bias_fits = fits_i64(bs[0]);
                    stride_bias = Some(bs[0] as i64);
                }
                bias_window = Some(b.view());
            },
            None => {},
        }
        proof {
            lemma_three_axes(batch, n, m);
        }
        let shape = vec![batch, n, m];
        assert(shape@ =~= out_dims(input.model().layout, self.weight.model().layout));
        let out = match Layout::contiguous(shape) {
            Some(l) => l,
            None => {
                return Err(TensorError::ShapeMismatch(ShapeFault::TooLarge));
            },
        };
        assert(out@.dims =~= out_dims(input.model().layout, self.weight.model().layout));
        proof {
            law_canonical(out@.dims);
            assert(product(ints(out@.dims).skip(1)) <= usize::MAX);
        }
        let out_len = match out.elem_count() {
            Some(c) => c,
            None => {
                return Err(TensorError::ShapeMismatch(ShapeFault::TooLarge));
            },
        };
        let matrix = out.stride()[0];
        assert(matrix == n * m);
        if !fits_i32(batch) || !fits_i64(m) || !fits_i64(k) || !fits_i64(matrix) || !fits_i64(xs[0])
            || (!self.broadcast_weight && !fits_i64(ws[0])) || !bias_fits {
            return Err(TensorError::ShapeMismatch(ShapeFault::TooLarge));
        }
        Ok(
            MatmulPlan {
                transa: true,
                transb: false,
                m: m as u64,
                n: n as u64,
                k: k as u64,
                alpha: 1,
                beta: 0,
                lda: k as i64,
                ldb: k as i64,
                ldc: m as i64,
                stride_a: xs[0] as i64,
                stride_b: if self.broadcast_weight {
                    0
                } else {
                    ws[0] as i64
                },
                stride_c: matrix as i64,
                stride_bias,
                batch_size: batch as i32,
                input: input.view(),
                weight: self.weight.view(),
                bias: bias_window,
                out_len,
            },
        )
    }

    /// Computes, for every batch index, the product of the input with the
    /// transposed weight, plus the bias. All checks come first: on a fault
    /// (see [`Linear::plan`]) the error is returned and `matmul` is not
    /// called. Otherwise `matmul` is called once with the configuration;
    /// the buffer it returns, which is to hold the output that the
    /// primitive wrote, is wrapped as a fresh tensor of shape
    /// `(batch, cols_out, rows_in)` in dense layout on the device of the
    /// input, and an error it returns is passed on unchanged. The operands
    /// are not changed.
    pub fn forward<F: FnOnce(&MatmulPlan) -> Result<B, TensorError>>(
        &self,
        input: &Tensor<B>,
        matmul: F,
    ) -> (r: Result<Tensor<B>, TensorError>)
        requires
            self.fault(input.model()) is None ==> call_requires(
                matmul,
                (&self.plan_spec(input.model()),),
            ),
        ensures
            forwarded(
                self.weight.model(),
                self.bias_model(),
                self.broadcast_weight,
                input.model(),
                matmul,
                r,
            ),
    {
        let plan = match self.plan(input) {
            Ok(p) => p,
            Err(e) => {
                return Err(e);
            },
        };
        let xd = input.dims();
        let wd = self.weight.dims();
        let shape = vec![xd[0], wd[1], xd[1]];
        assert(shape@ =~= out_dims(input.model().layout, self.weight.model().layout));
        let layout = match Layout::contiguous(shape) {
            Some(l) => l,
            None => {
                return Err(TensorError::ShapeMismatch(ShapeFault::TooLarge));
            },
        };
        assert(layout@.dims =~= out_dims(input.model().layout, self.weight.model().layout));
        proof {
            law_canonical(layout@.dims);
        }
        let o = matmul(&plan);
        let r = match o {
            Ok(b) => Tensor::from_raw(b, plan.out_len, input.stream(), layout),
            Err(e) => Err(e),
        };
        assert(call_ensures(matmul, (&self.plan_spec(input.model()),), o) && wrapped(
            o,
            self.plan_spec(input.model()).out_len,
            canonical(out_dims(input.model().layout, self.weight.model().layout)),
            input.model().device,
            r,
        ));
        r
    }
}

/// The sum of three products.
proof fn lemma_dot_three(c: Seq<int>, s: Seq<int>)
    requires
        c.len() == 3,
        s.len() == 3,
    ensures
        dot(c, s) == c[0] * s[0] + c[1] * s[1] + c[2] * s[2],
{
    reveal_with_fuel(dot, 4);
    assert(c.skip(1).skip(1).skip(1).len() == 0);
}

/// The sum of two products.
proof fn lemma_dot_two(c: Seq<int>, s: Seq<int>)
    requires
        c.len() == 2,
        s.len() == 2,
    ensures
        dot(c, s) == c[0] * s[0] + c[1] * s[1],
{
    reveal_with_fuel(dot, 3);
    assert(c.skip(1).skip(1).len() == 0);
}

/// The sum of one product.
proof fn lemma_dot_one(c: Seq<int>, s: Seq<int>)
    requires
        c.len() == 1,
        s.len() == 1,
    ensures
        dot(c, s) == c[0] * s[0],
{
    reveal_with_fuel(dot, 2);
    assert(c.skip(1).len() == 0);
}

/// A weight whose reduce axis differs from that of the input is always
/// rejected with a shape mismatch, as are operands that do not have three
/// axes, whenever all operands live on one device.
pub proof fn law_shape_rejection<B>(
    weight: TensorView<B>,
    bias: Option<TensorView<B>>,
    broadcast: bool,
    input: TensorView<B>,
)
    requires
        device_fault(weight, bias, input) is None,
        input.layout.rank() != 3 || weight.layout.rank() != 3 || weight.layout.dims[2]
            != input.layout.dims[2],
    ensures
        forward_fault(weight, bias, broadcast, input) matches Some(TensorError::ShapeMismatch(f))
            && Some(f) == operand_fault(input.layout, weight.layout, broadcast),
        input.layout.rank() == 3 && weight.layout.rank() == 3 ==> forward_fault(
            weight,
            bias,
            broadcast,
            input,
        ) == Some(
            TensorError::ShapeMismatch(
                ShapeFault::ReduceDim {
                    expected: input.layout.dims[2],
                    actual: weight.layout.dims[2],
                },
            ),
        ),
{
}

/// Operands on different devices are always rejected with a device
/// mismatch, whatever their shapes.
pub proof fn law_device_rejection<B>(
    weight: TensorView<B>,
    bias: Option<TensorView<B>>,
    broadcast: bool,
    input: TensorView<B>,
)
    requires
        input.device != weight.device || (bias matches Some(b) && b.device != weight.device),
    ensures
        forward_fault(weight, bias, broadcast, input) matches Some(
            TensorError::DeviceMismatch { expected, actual },
        ) && expected == weight.device && actual != weight.device,
{
}

/// A bias of one axis is broadcast across every batch. It changes nothing
/// in the configuration but the bias operand itself, and for input row `i`
/// of any batch `b` the primitive reads, and so adds to the bias-free
/// product, the `i`-th logical element of the bias. `buffer` stands for
/// what the bias buffer holds.
pub proof fn law_shared_bias<B, T>(
    weight: TensorView<B>,
    bias: TensorView<B>,
    broadcast: bool,
    input: TensorView<B>,
    buffer: Seq<T>,
    b: int,
    i: int,
)
    requires
        bias.wf(),
        buffer.len() == bias.len,
        forward_fault(weight, Some(bias), broadcast, input) is None,
        bias.layout.rank() == 1,
        0 <= b < input.layout.dims[0],
        0 <= i < input.layout.dims[1],
    ensures
        forward_fault(weight, None, broadcast, input) is None,
        bias.layout.dims[0] == input.layout.dims[1],
        plan_for(input.layout, weight.layout, Some(bias.layout), broadcast) == (MatmulPlan {
            bias: Some(window_of(bias.layout)),
            stride_bias: None,
            ..plan_for(input.layout, weight.layout, None, broadcast)
        }),
        plan_for(input.layout, weight.layout, Some(bias.layout), broadcast).bias_position(b, i)
            == i,
        bias.layout.address(seq![i]) == window_of(bias.layout).start + i,
        window_of(bias.layout).start + i < buffer.len(),
        buffer[window_of(bias.layout).start + i] == gathered(buffer, bias.layout)[i],
{
    let v = bias.layout;
    let d = ints(v.dims);
    lemma_dot_one(seq![i], ints(v.strides));
    assert(vector_fault(v) is None);
    assert(ints(v.strides)[0] == 1);
    assert(in_range(seq![i], d));
    law_addresses_in_bounds(v, bias.len as int, seq![i]);
    reveal_with_fuel(product, 2);
    reveal_with_fuel(unravel, 2);
    assert(d.skip(1) =~= Seq::<int>::empty());
    assert(product(d.skip(1)) == 1);
    assert(product(d) == d[0] * product(d.skip(1)));
    assert(unravel(i, d) =~= seq![i]);
}

impl MatmulPlan {
    /// Where the primitive reads the input element of batch `b`, row `i`
    /// and reduce index `kk`: `A` is stored with leading dimension `lda`
    /// and read transposed.
    pub open spec fn input_position(self, b: int, i: int, kk: int) -> int {
        self.input.start + b * self.stride_a + i * self.lda + kk
    }

    /// Where the primitive reads the weight element of batch `b`, output
    /// column `j` and reduce index `kk`.
    pub open spec fn weight_position(self, b: int, j: int, kk: int) -> int {
        self.weight.start + b * self.stride_b + j * self.ldb + kk
    }

    /// Where the primitive writes the output element of batch `b`, output
    /// column `j` and input row `i`, counted from the start of the output
    /// buffer.
    pub open spec fn output_position(self, b: int, j: int, i: int) -> int {
        b * self.stride_c + j * self.ldc + i
    }

    /// Where the primitive reads the bias entry of batch `b` and input
    /// row `i`, counted from the start of the bias window.
    pub open spec fn bias_position(self, b: int, i: int) -> int {
        match self.stride_bias {
            Some(s) => b * s + i,
            None => i,
        }
    }
}

/// No number of the configuration was truncated: each is the extent or
/// stride it stands for.
pub proof fn law_plan_extents<B>(
    weight: TensorView<B>,
    bias: Option<TensorView<B>>,
    broadcast: bool,
    input: TensorView<B>,
)
    requires
        forward_fault(weight, bias, broadcast, input) is None,
    ensures
        ({
            let x = input.layout;
            let w = weight.layout;
            let p = plan_for(x, w, bias_layout(bias), broadcast);
            &&& p.transa && !p.transb && p.alpha == 1 && p.beta == 0
            &&& p.batch_size == x.dims[0] && p.m == x.dims[1] && p.n == w.dims[1] && p.k
                == x.dims[2]
            &&& p.lda == p.k && p.ldb == p.k && p.ldc == p.m && p.stride_c == p.n * p.m
            &&& p.stride_a == x.strides[0]
            &&& p.stride_b == if broadcast {
                0
            } else {
                w.strides[0] as int
            }
            &&& p.out_len == p.batch_size * (p.n * p.m)
        }),
{
    lemma_three_axes(input.layout.dims[0], weight.layout.dims[1], input.layout.dims[1]);
    let od = out_dims(input.layout, weight.layout);
    assert(ints(od).skip(0) =~= ints(od));
    assert(product(ints(od).skip(0)) <= usize::MAX);
    assert(product(ints(od).skip(1)) <= usize::MAX);
}

/// The configuration describes the input as it lies in memory: the
/// position that the primitive computes for batch `b`, row `i` and reduce
/// index `kk` is the address of `input[b, i, kk]`, within the buffer.
pub proof fn law_plan_addresses_input<B>(
    weight: TensorView<B>,
    bias: Option<TensorView<B>>,
    broadcast: bool,
    input: TensorView<B>,
    b: int,
    i: int,
    kk: int,
)
    requires
        input.wf(),
        forward_fault(weight, bias, broadcast, input) is None,
        0 <= b < input.layout.dims[0],
        0 <= i < input.layout.dims[1],
        0 <= kk < input.layout.dims[2],
    ensures
        plan_for(input.layout, weight.layout, bias_layout(bias), broadcast).input_position(b, i, kk)
            == input.layout.address(seq![b, i, kk]),
        input.layout.address(seq![b, i, kk]) < input.len,
{
    let x = input.layout;
    let p = plan_for(x, weight.layout, bias_layout(bias), broadcast);
    law_plan_extents(weight, bias, broadcast, input);
    lemma_dot_three(seq![b, i, kk], ints(x.strides));
    assert(in_range(seq![b, i, kk], ints(x.dims)));
    law_addresses_in_bounds(x, input.len as int, seq![b, i, kk]);
    assert(ints(x.strides)[0] == p.stride_a);
    assert(ints(x.strides)[1] == p.lda);
    assert(ints(x.strides)[2] == 1);
}

/// The configuration describes the weight as it lies in memory: the
/// position that the primitive computes for batch `b`, output column `j`
/// and reduce index `kk` is the address of `weight[b, j, kk]`, or of
/// `weight[0, j, kk]` where the weight is shared, within the buffer.
pub proof fn law_plan_addresses_weight<B>(
    weight: TensorView<B>,
    bias: Option<TensorView<B>>,
    broadcast: bool,
    input: TensorView<B>,
    b: int,
    j: int,
    kk: int,
)
    requires
        weight.wf(),
        forward_fault(weight, bias, broadcast, input) is None,
        0 <= b < input.layout.dims[0],
        0 <= j < weight.layout.dims[1],
        0 <= kk < input.layout.dims[2],
    ensures
        plan_for(input.layout, weight.layout, bias_layout(bias), broadcast).weight_position(
            b,
            j,
            kk,
        ) == weight.layout.address(
            seq![if broadcast {
                0
            } else {
                b
            }, j, kk],
        ),
        weight.layout.address(seq![if broadcast {
            0
        } else {
            b
        }, j, kk]) < weight.len,
{
    let w = weight.layout;
    let p = plan_for(input.layout, w, bias_layout(bias), broadcast);
    let wb = if broadcast {
        0
    } else {
        b
    };
    law_plan_extents(weight, bias, broadcast, input);
    lemma_dot_three(seq![wb, j, kk], ints(w.strides));
    assert(in_range(seq![wb, j, kk], ints(w.dims)));
    law_addresses_in_bounds(w, weight.len as int, seq![wb, j, kk]);
    assert(ints(w.strides)[1] == p.ldb);
    assert(ints(w.strides)[2] == 1);
    if broadcast {
        assert(b * p.stride_b == 0);
        assert(wb * ints(w.strides)[0] == 0);
    } else {
        assert(ints(w.strides)[0] == p.stride_b);
    }
}

/// The configuration describes the output as a dense tensor of shape
/// `(batch, cols_out, rows_in)`: the position that the primitive computes
/// for batch `b`, output column `j` and input row `i` is the address of
/// `output[b, j, i]`, within the output buffer.
pub proof fn law_plan_addresses_output<B>(
    weight: TensorView<B>,
    bias: Option<TensorView<B>>,
    broadcast: bool,
    input: TensorView<B>,
    b: int,
    j: int,
    i: int,
)
    requires
        forward_fault(weight, bias, broadcast, input) is None,
        0 <= b < input.layout.dims[0],
        0 <= j < weight.layout.dims[1],
        0 <= i < input.layout.dims[1],
    ensures
        plan_for(input.layout, weight.layout, bias_layout(bias), broadcast).output_position(b, j, i)
            == canonical(out_dims(input.layout, weight.layout)).address(seq![b, j, i]),
        canonical(out_dims(input.layout, weight.layout)).address(seq![b, j, i]) < plan_for(
            input.layout,
            weight.layout,
            bias_layout(bias),
            broadcast,
        ).out_len,
{
    let x = input.layout;
    let w = weight.layout;
    let p = plan_for(x, w, bias_layout(bias), broadcast);
    let od = out_dims(x, w);
    let out = canonical(od);
    law_plan_extents(weight, bias, broadcast, input);
    lemma_three_axes(x.dims[0], w.dims[1], x.dims[1]);
    law_canonical(od);
    assert(ints(od).skip(0) =~= ints(od));
    assert(product(ints(od).skip(0)) <= usize::MAX);
    assert(product(ints(od).skip(1)) <= usize::MAX);
    assert(product(ints(od).skip(2)) <= usize::MAX);
    assert(ints(od).skip(3) =~= Seq::<int>::empty());
    assert(ints(out.strides)[0] == p.stride_c);
    assert(ints(out.strides)[1] == p.ldc);
    assert(ints(out.strides)[2] == 1);
    lemma_dot_three(seq![b, j, i], ints(out.strides));
    assert(in_range(seq![b, j, i], ints(out.dims)));
    law_addresses_in_bounds(out, out.elem_count(), seq![b, j, i]);
}

/// The configuration describes the bias as it lies in memory: for batch
/// `b` and input row `i`, the position that the primitive computes from
/// window and batch stride is the address of `bias[i]`, or of
/// `bias[b, i]` for a bias of two axes, within the bias buffer.
pub proof fn law_plan_addresses_bias<B>(
    weight: TensorView<B>,
    bias: TensorView<B>,
    broadcast: bool,
    input: TensorView<B>,
    b: int,
    i: int,
)
    requires
        bias.wf(),
        forward_fault(weight, Some(bias), broadcast, input) is None,
        0 <= b < input.layout.dims[0],
        0 <= i < input.layout.dims[1],
    ensures
        plan_for(input.layout, weight.layout, Some(bias.layout), broadcast).bias == Some(
            window_of(bias.layout),
        ),
        bias.layout.offset + plan_for(
            input.layout,
            weight.layout,
            Some(bias.layout),
            broadcast,
        ).bias_position(b, i) == bias.layout.address(
            if bias.layout.rank() == 1 {
                seq![i]
            } else {
                seq![b, i]
            },
        ),
        bias.layout.address(
            if bias.layout.rank() == 1 {
                seq![i]
            } else {
                seq![b, i]
            },
        ) < bias.len,
{
    let v = bias.layout;
    let p = plan_for(input.layout, weight.layout, Some(v), broadcast);
    assert(bias_fault(v, input.layout.dims[0], input.layout.dims[1]) is None);
    assert(vector_fault(v) is None);
    if v.rank() == 1 {
        lemma_dot_one(seq![i], ints(v.strides));
        assert(in_range(seq![i], ints(v.dims)));
        law_addresses_in_bounds(v, bias.len as int, seq![i]);
        assert(ints(v.strides)[0] == 1);
        assert(p.stride_bias is None);
        assert(p.bias_position(b, i) == i);
        assert(v.address(seq![i]) == v.offset + i);
    } else {
        assert(v.rank() == 2);
        lemma_dot_two(seq![b, i], ints(v.strides));
        assert(in_range(seq![b, i], ints(v.dims)));
        law_addresses_in_bounds(v, bias.len as int, seq![b, i]);
        assert(ints(v.strides)[1] == 1);
        assert(p.stride_bias == Some(v.strides[0] as i64));
        let s0 = ints(v.strides)[0];
        assert(v.strides[0] as i64 == s0);
        assert(p.bias_position(b, i) == b * s0 + i);
        assert(v.address(seq![b, i]) == v.offset + (b * s0 + i * 1));
    }
}

/// `term(0)`, ..., `term(n - 1)` accumulated from `zero` in index order.
pub open spec fn accumulated<T>(
    n: int,
    term: spec_fn(int) -> T,
    plus: spec_fn(T, T) -> T,
    zero: T,
) -> T
    decreases n,
{
    if n <= 0 {
        zero
    } else {
        plus(accumulated(n - 1, term, plus, zero), term(n - 1))
    }
}

/// Sums of terms that agree index by index agree.
pub proof fn lemma_accumulated_congruence<T>(
    n: int,
    f: spec_fn(int) -> T,
    g: spec_fn(int) -> T,
    plus: spec_fn(T, T) -> T,
    zero: T,
)
    requires
        forall|kk: int| 0 <= kk < n ==> #[trigger] f(kk) == g(kk),
    ensures
        accumulated(n, f, plus, zero) == accumulated(n, g, plus, zero),
    decreases n,
{
    if n > 0 {
        lemma_accumulated_congruence(n - 1, f, g, plus, zero);
    }
}

impl MatmulPlan {
    /// What the primitive writes at [`MatmulPlan::output_position`] of
    /// `(b, j, i)` under this configuration, which has `A` transposed and
    /// scales by one and zero: the products of the entries of `a` and `w`
    /// along the reduce axis, accumulated, plus the entry of `bias` for
    /// row `i`. The three sequences are what the operand buffers hold.
    pub open spec fn cell<T>(
        self,
        a: Seq<T>,
        w: Seq<T>,
        bias: Seq<T>,
        plus: spec_fn(T, T) -> T,
        times: spec_fn(T, T) -> T,
        zero: T,
        b: int,
        j: int,
        i: int,
    ) -> T {
        let sum = accumulated(
            self.k as int,
            |kk: int| times(a[self.input_position(b, i, kk)], w[self.weight_position(b, j, kk)]),
            plus,
            zero,
        );
        match self.bias {
            Some(window) => plus(sum, bias[window.start + self.bias_position(b, i)]),
            None => sum,
        }
    }
}

/// The element of tensor `t` at `index`, where `contents` says what a
/// buffer holds.
pub open spec fn element<B, T>(
    t: TensorView<B>,
    contents: spec_fn(B) -> Seq<T>,
    index: Seq<int>,
) -> T {
    contents(t.data)[t.layout.address(index)]
}

/// What the bias buffer holds; nothing where there is no bias.
pub open spec fn bias_contents<B, T>(
    bias: Option<TensorView<B>>,
    contents: spec_fn(B) -> Seq<T>,
) -> Seq<T> {
    match bias {
        Some(v) => contents(v.data),
        None => Seq::empty(),
    }
}

/// The linear projection, element by element: `output[b, j, i]` is the sum
/// over the reduce axis of `input[b, i, kk] * weight[b, j, kk]`, with batch
/// 0 of a shared weight, plus `bias[i]` for a bias of one axis or
/// `bias[b, i]` for a bias of two.
pub open spec fn projected<B, T>(
    weight: TensorView<B>,
    bias: Option<TensorView<B>>,
    broadcast: bool,
    input: TensorView<B>,
    contents: spec_fn(B) -> Seq<T>,
    plus: spec_fn(T, T) -> T,
    times: spec_fn(T, T) -> T,
    zero: T,
    b: int,
    j: int,
    i: int,
) -> T {
    let wb = if broadcast {
        0
    } else {
        b
    };
    let sum = accumulated(
        input.layout.dims[2] as int,
        |kk: int|
            times(
                element(input, contents, seq![b, i, kk]),
                element(weight, contents, seq![wb, j, kk]),
            ),
        plus,
        zero,
    );
    match bias {
        Some(v) => plus(
            sum,
            element(
                v,
                contents,
                if v.layout.rank() == 1 {
                    seq![i]
                } else {
                    seq![b, i]
                },
            ),
        ),
        None => sum,
    }
}

/// Whenever `matmul` returns a buffer for configuration `p`, the buffer
/// has the length of the output and holds, for every batch, output column
/// and input row, the cell that the primitive computes from the operand
/// buffers `a`, `w` and `bias`.
pub open spec fn runs_matmul<B, T, F: FnOnce(&MatmulPlan) -> Result<B, TensorError>>(
    matmul: F,
    contents: spec_fn(B) -> Seq<T>,
    p: MatmulPlan,
    a: Seq<T>,
    w: Seq<T>,
    bias: Seq<T>,
    plus: spec_fn(T, T) -> T,
    times: spec_fn(T, T) -> T,
    zero: T,
) -> bool {
    forall|o: Result<B, TensorError>| #[trigger]
        call_ensures(matmul, (&p,), o) ==> match o {
            Ok(out) => {
                &&& contents(out).len() == p.out_len
                &&& forall|b: int, j: int, i: int|
                    0 <= b < p.batch_size && 0 <= j < p.n && 0 <= i < p.m ==> contents(
                        out,
                    )[#[trigger] p.output_position(b, j, i)] == p.cell(
                        a,
                        w,
                        bias,
                        plus,
                        times,
                        zero,
                        b,
                        j,
                        i,
                    )
            },
            Err(_) => true,
        }
}

/// The operator computes the linear projection, whenever the primitive
/// meets its contract: the tensor that [`Linear::forward`] returns holds
/// at `[b, j, i]` the sum over the reduce axis of
/// `input[b, i, kk] * weight[b, j, kk]`, plus the bias entry of row `i`.
pub proof fn law_forward_computes<B, T, F: FnOnce(&MatmulPlan) -> Result<B, TensorError>>(
    weight: TensorView<B>,
    bias: Option<TensorView<B>>,
    broadcast: bool,
    input: TensorView<B>,
    matmul: F,
    contents: spec_fn(B) -> Seq<T>,
    plus: spec_fn(T, T) -> T,
    times: spec_fn(T, T) -> T,
    zero: T,
    out: Tensor<B>,
    b: int,
    j: int,
    i: int,
)
    requires
        weight.wf(),
        input.wf(),
        bias matches Some(v) ==> v.wf(),
        runs_matmul(
            matmul,
            contents,
            plan_for(input.layout, weight.layout, bias_layout(bias), broadcast),
            contents(input.data),
            contents(weight.data),
            bias_contents(bias, contents),
            plus,
            times,
            zero,
        ),
        forwarded(weight, bias, broadcast, input, matmul, Ok(out)),
        0 <= b < input.layout.dims[0],
        0 <= j < weight.layout.dims[1],
        0 <= i < input.layout.dims[1],
    ensures
        out.model().layout == canonical(out_dims(input.layout, weight.layout)),
        out.model().device == input.device,
        contents(out.model().data).len() == out.model().len,
        element(out.model(), contents, seq![b, j, i]) == projected(
            weight,
            bias,
            broadcast,
            input,
            contents,
            plus,
            times,
            zero,
            b,
            j,
            i,
        ),
{
    let x = input.layout;
    let w = weight.layout;
    let p = plan_for(x, w, bias_layout(bias), broadcast);
    let wb = if broadcast {
        0
    } else {
        b
    };
    let o = choose|o: Result<B, TensorError>| #[trigger]
        call_ensures(matmul, (&p,), o) && wrapped(
            o,
            p.out_len,
            canonical(out_dims(x, w)),
            input.device,
            Ok(out),
        );
    let buffer = contents(out.model().data);
    law_plan_extents(weight, bias, broadcast, input);
    law_plan_addresses_output(weight, bias, broadcast, input, b, j, i);
    assert(buffer[p.output_position(b, j, i)] == p.cell(
        contents(input.data),
        contents(weight.data),
        bias_contents(bias, contents),
        plus,
        times,
        zero,
        b,
        j,
        i,
    ));
    let f = |kk: int|
        times(
            contents(input.data)[p.input_position(b, i, kk)],
            contents(weight.data)[p.weight_position(b, j, kk)],
        );
    let g = |kk: int|
        times(element(input, contents, seq![b, i, kk]), element(weight, contents, seq![wb, j, kk]));
    assert forall|kk: int| 0 <= kk < p.k implies #[trigger] f(kk) == g(kk) by {
        law_plan_addresses_input(weight, bias, broadcast, input, b, i, kk);
        law_plan_addresses_weight(weight, bias, broadcast, input, b, j, kk);
    }
    lemma_accumulated_congruence(p.k as int, f, g, plus, zero);
    match bias {
        Some(v) => {
            law_plan_addresses_bias(weight, v, broadcast, input, b, i);
        },
        None => {},
    }
}

/// A bias of one axis gives the output of the bias-free operator with the
/// bias added to every batch: each output element is the bias-free element
/// plus the bias entry of its input row.
pub proof fn law_bias_broadcast<B, T>(
    weight: TensorView<B>,
    bias: TensorView<B>,
    broadcast: bool,
    input: TensorView<B>,
    contents: spec_fn(B) -> Seq<T>,
    plus: spec_fn(T, T) -> T,
    times: spec_fn(T, T) -> T,
    zero: T,
    b: int,
    j: int,
    i: int,
)
    requires
        bias.wf(),
        contents(bias.data).len() == bias.len,
        forward_fault(weight, Some(bias), broadcast, input) is None,
        bias.layout.rank() == 1,
        0 <= b < input.layout.dims[0],
        0 <= i < input.layout.dims[1],
    ensures
        forward_fault(weight, None, broadcast, input) is None,
        projected(weight, Some(bias), broadcast, input, contents, plus, times, zero, b, j, i)
            == plus(
            projected(weight, None, broadcast, input, contents, plus, times, zero, b, j, i),
            gathered(contents(bias.data), bias.layout)[i],
        ),
{
    law_shared_bias(weight, bias, broadcast, input, contents(bias.data), b, i);
}

} // verus!
