//! The error taxonomy of the runtime. Every failure is a typed value that
//! carries the numbers needed to diagnose it.

use vstd::prelude::*;

verus! {

/// The role of a tensor in the linear operator.
#[derive(Clone, Copy, Debug, PartialEq, Eq, Structural)]
pub enum Operand {
    Input,
    Weight,
    Bias,
}

/// What is wrong with a shape, with the value that was wanted and the value
/// that was found.
#[derive(Clone, Copy, Debug, PartialEq, Eq, Structural)]
pub enum ShapeFault {
    /// Shape and strides of a layout differ in length.
    Rank { expected: usize, actual: usize },
    /// An operand does not have the number of axes required of it.
    OperandRank { operand: Operand, expected: usize, actual: usize },
    /// A buffer does not hold as many elements as the shape has.
    ElementCount { expected: usize, actual: usize },
    /// The element count or a row-major stride of the shape exceeds `usize`,
    /// or a value of the matmul configuration exceeds its integer type.
    TooLarge,
    /// The layout addresses elements beyond the end of its buffer.
    OutOfBounds { required: usize, available: usize },
    /// The reduce axis of the weight differs from that of the input.
    ReduceDim { expected: usize, actual: usize },
    /// The batch extent of the weight or the bias is not the one required.
    Batch { operand: Operand, expected: usize, actual: usize },
    /// The bias does not have one entry per input row.
    BiasLength { expected: usize, actual: usize },
    /// An operand is not densely packed along the given axis.
    Stride { operand: Operand, axis: usize, expected: usize, actual: usize },
}

/// Why an operation of the runtime failed.
#[derive(Clone, Copy, Debug, PartialEq, Eq, Structural)]
pub enum TensorError {
    /// Rank or dimension incompatibility.
    ShapeMismatch(ShapeFault),
    /// Tensors of one operation live on different devices.
    DeviceMismatch { expected: usize, actual: usize },
    /// The device could not provide a buffer of this many elements.
    AllocationFailure { elements: usize },
    /// A kernel or the matmul primitive failed with the given status code.
    OperatorFailure { code: i64 },
    /// A mutable view was requested of a buffer that has other owners.
    AccessViolation,
    /// An axis does not exist in a shape of the given rank.
    IndexOutOfRange { axis: usize, rank: usize },
}

} // verus!
