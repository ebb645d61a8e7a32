//! The types of values in memory.
use vstd::prelude::*;

verus! {

/// The type of a value in memory.
#[derive(Clone, Copy, Debug, PartialEq, Eq, Structural)]
pub enum ValueType {
    I8,
    I16,
    I32,
    I64,
    /// IEEE 754 single precision.
    F32,
    /// IEEE 754 double precision.
    F64,
    StringUtf8,
    StringUtf16,
}

} // verus!
