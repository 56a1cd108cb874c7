//! The shared vocabulary: what one GPU-side element is made of.

use vstd::prelude::*;

verus! {

/// Numeric representation of a single component.
#[derive(Clone, Copy, Debug, PartialEq, Eq, Hash, Structural)]
pub enum ScalarKind {
    I8,
    U8,
    I16,
    U16,
    I32,
    U32,
    I64,
    U64,
    F16,
    F32,
    F64,
}

/// Number of components along one axis of a vector or matrix.
#[derive(Clone, Copy, Debug, PartialEq, Eq, Hash, Structural)]
pub enum Dim {
    Two,
    Three,
    Four,
}

/// GPU-side type of one element.
#[derive(Clone, Copy, Debug, PartialEq, Eq, Hash, Structural)]
pub enum TypeTag {
    Scalar(ScalarKind),
    Vector(ScalarKind, Dim),
    /// Column count first, then row count.
    Matrix(ScalarKind, Dim, Dim),
}

/// Host-side type of one field, as far as the mapping to a tag needs it.
///
/// Only shapes that have a GPU counterpart can be written down, so a field
/// of any other type cannot enter a format at all.
#[derive(Clone, Copy, Debug, PartialEq, Eq, Hash, Structural)]
pub enum ElementType {
    /// `T`
    Scalar(ScalarKind),
    /// `[T; n]`
    Array(ScalarKind, Dim),
    /// `(T, .., T)` with `n` entries
    Tuple(ScalarKind, Dim),
    /// `[[T; rows]; columns]`
    Matrix(ScalarKind, Dim, Dim),
}

impl ElementType {
    /// The tag a field of this type is bound as.
    pub open spec fn tag(self) -> TypeTag {
        match self {
            ElementType::Scalar(kind) => TypeTag::Scalar(kind),
            ElementType::Array(kind, len) => TypeTag::Vector(kind, len),
            ElementType::Tuple(kind, len) => TypeTag::Vector(kind, len),
            ElementType::Matrix(kind, columns, rows) => TypeTag::Matrix(kind, columns, rows),
        }
    }

    /// Maps the host-side type to its GPU tag: a scalar stays a scalar, an
    /// array or tuple of `n` components becomes the `n`-component vector,
    /// and nested arrays become the matrix of the same dimensions.
    pub fn type_tag(self) -> (t: TypeTag)
        ensures
            t == self.tag(),
    {
        match self {
            ElementType::Scalar(kind) => TypeTag::Scalar(kind),
            ElementType::Array(kind, len) => TypeTag::Vector(kind, len),
            ElementType::Tuple(kind, len) => TypeTag::Vector(kind, len),
            ElementType::Matrix(kind, columns, rows) => TypeTag::Matrix(kind, columns, rows),
        }
    }
}

} // verus!
