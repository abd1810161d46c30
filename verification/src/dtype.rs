//! The closed set of element types that the kernels are built for.

use vstd::prelude::*;
use vstd::string::StringExecFns;

verus! {

/// An element type with a kernel variant of its own.
#[derive(Clone, Copy, Debug, PartialEq, Eq, Structural)]
pub enum DType {
    F32,
    F16,
    BF16,
    U8,
    U16,
    U32,
    U64,
    I8,
    I16,
    I32,
    I64,
}

impl DType {
    /// The tag of the type in kernel names.
    pub open spec fn tag(self) -> Seq<char> {
        match self {
            DType::F32 => "f32"@,
            DType::F16 => "f16"@,
            DType::BF16 => "bf16"@,
            DType::U8 => "u8"@,
            DType::U16 => "u16"@,
            DType::U32 => "u32"@,
            DType::U64 => "u64"@,
            DType::I8 => "i8"@,
            DType::I16 => "i16"@,
            DType::I32 => "i32"@,
            DType::I64 => "i64"@,
        }
    }

    /// The tag of the type in kernel names: the name of the Rust type.
    pub fn name(self) -> (r: &'static str)
        ensures
            r@ == self.tag(),
    {
        match self {
            DType::F32 => "f32",
            DType::F16 => "f16",
            DType::BF16 => "bf16",
            DType::U8 => "u8",
            DType::U16 => "u16",
            DType::U32 => "u32",
            DType::U64 => "u64",
            DType::I8 => "i8",
            DType::I16 => "i16",
            DType::I32 => "i32",
            DType::I64 => "i64",
        }
    }

    /// The name of the contiguity kernel for this element type.
    pub fn copy_kernel(self) -> (r: String)
        ensures
            r@ == "ucopy_"@ + self.tag(),
    {
        String::from_str("ucopy_").concat(self.name())
    }
}

/// A Rust type that can be the element type of a tensor.
pub trait DTypeLike: Copy {
    /// The tag of the implementing type.
    spec fn dtype_spec() -> DType;

    /// The tag of the implementing type.
    fn dtype() -> (d: DType)
        ensures
            d == Self::dtype_spec(),
    ;
}

impl DTypeLike for u8 {
    open spec fn dtype_spec() -> DType {
        DType::U8
    }

    fn dtype() -> (d: DType) {
        DType::U8
    }
}

impl DTypeLike for u16 {
    open spec fn dtype_spec() -> DType {
        DType::U16
    }

    fn dtype() -> (d: DType) {
        DType::U16
    }
}

impl DTypeLike for u32 {
    open spec fn dtype_spec() -> DType {
        DType::U32
    }

    fn dtype() -> (d: DType) {
        DType::U32
    }
}

impl DTypeLike for u64 {
    open spec fn dtype_spec() -> DType {
        DType::U64
    }

    fn dtype() -> (d: DType) {
        DType::U64
    }
}

impl DTypeLike for i8 {
    open spec fn dtype_spec() -> DType {
        DType::I8
    }

    fn dtype() -> (d: DType) {
        DType::I8
    }
}

impl DTypeLike for i16 {
    open spec fn dtype_spec() -> DType {
        DType::I16
    }

    fn dtype() -> (d: DType) {
        DType::I16
    }
}

impl DTypeLike for i32 {
    open spec fn dtype_spec() -> DType {
        DType::I32
    }

    fn dtype() -> (d: DType) {
        DType::I32
    }
}

impl DTypeLike for i64 {
    open spec fn dtype_spec() -> DType {
        DType::I64
    }

    fn dtype() -> (d: DType) {
        DType::I64
    }
}

} // verus!
