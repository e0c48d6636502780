pub mod expression_def;

pub use expression_def::Op;

use vstd::prelude::*;

verus! {

/// Primitive types that an API definition can name.
#[derive(Clone, Copy, Debug, PartialEq, Eq, Structural)]
pub enum LiteralType {
    Bool,
    I8,
    I16,
    I32,
    I64,
    U8,
    U16,
    U32,
    U64,
    F32,
    F64,
    String,
    Str,
    Unit,
}

} // verus!
