//! What can go wrong while types are built, compared and inferred.

use crate::types::Id;
use vstd::prelude::*;

verus! {

/// An error of the type system. Type ids refer to the arena in which the
/// error arose.
#[derive(Clone, Copy, Debug, PartialEq, Eq, Structural)]
pub enum TypeError {
    /// The id is not in the arena.
    IdNotFound(Id),
    /// A type is nested deeper than a traversal goes, as a cyclic one is.
    Cyclic,
    /// More distinct variables than there are single-letter names.
    TooManyVariables,
    /// A name is bound to no type.
    NameNotFound,
    /// A type expression has a shape that stands for no type.
    Unsupported,
    /// A text is not a symbolic expression.
    Syntax,
    /// A projection from something that is no record.
    NotRecord(Id),
    /// A projection by something that is no atom literal.
    NotAtom(Id),
    /// A projection by a label that the record (first) lacks; the key is second.
    FieldNotFound(Id, Id),
    /// The two types do not unify.
    Mismatch(Id, Id),
    /// A variable would have to contain itself.
    Recursive,
    /// The first type is not a subtype of the second.
    NotSubtype(Id, Id),
    /// A value of this type is applied, and it is no function.
    NotApplicable(Id),
    /// A `case` guard of this type, which is not `bool`.
    GuardNotBool(Id),
    /// The elements of a list, or the branches of a `case`, differ in type.
    NotUniform(Id, Id),
    /// An expression that has no type of its own.
    Untypable,
    /// A value that is no function is applied.
    NotFunction,
    /// A variable that nothing was bound to.
    UnboundVariable,
    /// No guard of a `case` is true.
    NoMatchingCase,
    /// A primitive got an argument it cannot work on, or too few.
    BadArgument,
    /// No primitive of that name.
    UnknownExternal,
    /// A number outside the 64-bit integers.
    Overflow,
    /// Evaluation went on for more steps than it was given.
    OutOfFuel,
}

} // verus!
