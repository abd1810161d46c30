//! A minimal tensor runtime core: strided layouts over flat device buffers,
//! tensor handles that own or share a buffer, the contiguity kernel that
//! repacks a strided view densely, and the batched linear operator's
//! validation and launch configuration.
//!
//! The crate never touches a device itself. Buffers are opaque values of a
//! caller-chosen type, and every step that needs the device (an upload, a
//! kernel launch, a matrix multiply) is a closure the caller hands in.

pub mod dtype;
pub mod error;
pub mod index;
pub mod kernel;
pub mod layout;
pub mod linear;
pub mod tensor;

pub use dtype::{DType, DTypeLike};
pub use error::{Operand, ShapeFault, TensorError};
pub use layout::{Layout, Window};
pub use linear::{Linear, MatmulPlan};
pub use tensor::Tensor;
