//! The ledger's error type.
//!
//! Errors are structured values: they carry the offending unit, key or text
//! rather than a formatted message, so callers can render them as they see
//! fit and specifications can name them exactly.
use vstd::prelude::*;

verus! {

/// Specification-level mirror of [`Error`].
#[verifier::ext_equal]
pub enum ErrorV {
    /// A requested serving unit matched no unit of the food; carries the
    /// unit asked for and every unit the food defines.
    UnknownUnit { unit: Seq<char>, known: Seq<Seq<char>> },
    /// A requested serving unit matched more than one unit of the food;
    /// carries the unit asked for and the first two colliding candidates.
    AmbiguousUnit { unit: Seq<char>, first: Seq<char>, second: Seq<char> },
    /// The matched unit equates zero of itself to one serving, so no
    /// portion can be computed.
    ZeroUnitSize { unit: Seq<char> },
    /// An exact result left the range of the number representation.
    Overflow,
    /// A food record without a `name` entry.
    MissingName,
    /// A food record with neither a `[nutrients]` nor an `[ingredients]`
    /// section.
    MissingSpec,
    /// A food record with both a `[nutrients]` and an `[ingredients]`
    /// section.
    ConflictingSpec,
    /// Text that should have been a decimal number.
    BadNumber { text: Seq<char> },
    /// A line that fits no rule of the record grammar.
    BadLine { line: Seq<char> },
    /// A referenced food key that the resolver could not supply.
    FoodNotFound { key: Seq<char> },
}

/// What can go wrong while loading records or resolving servings.
#[derive(Debug)]
pub enum Error {
    /// A requested serving unit matched no unit of the food.
    UnknownUnit { unit: String, known: Vec<String> },
    /// A requested serving unit matched more than one unit of the food.
    AmbiguousUnit { unit: String, first: String, second: String },
    /// The matched unit equates zero of itself to one serving.
    ZeroUnitSize { unit: String },
    /// An exact result left the range of the number representation.
    Overflow,
    /// A food record without a `name` entry.
    MissingName,
    /// A food record with neither nutrients nor ingredients.
    MissingSpec,
    /// A food record with both nutrients and ingredients.
    ConflictingSpec,
    /// Text that should have been a decimal number.
    BadNumber { text: String },
    /// A line that fits no rule of the record grammar.
    BadLine { line: String },
    /// A referenced food key that the resolver could not supply.
    FoodNotFound { key: String },
}

impl View for Error {
    type V = ErrorV;

    open spec fn view(&self) -> ErrorV {
        match self {
            Error::UnknownUnit { unit, known } => ErrorV::UnknownUnit {
                unit: unit@,
                known: known@.map_values(|u: String| u@),
            },
            Error::AmbiguousUnit { unit, first, second } => ErrorV::AmbiguousUnit {
                unit: unit@,
                first: first@,
                second: second@,
            },
            Error::ZeroUnitSize { unit } => ErrorV::ZeroUnitSize { unit: unit@ },
            Error::Overflow => ErrorV::Overflow,
            Error::MissingName => ErrorV::MissingName,
            Error::MissingSpec => ErrorV::MissingSpec,
            Error::ConflictingSpec => ErrorV::ConflictingSpec,
            Error::BadNumber { text } => ErrorV::BadNumber { text: text@ },
            Error::BadLine { line } => ErrorV::BadLine { line: line@ },
            Error::FoodNotFound { key } => ErrorV::FoodNotFound { key: key@ },
        }
    }
}

} // verus!
