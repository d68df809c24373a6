//! What stops an aggregation step.
use vstd::prelude::*;

use crate::entry::AggKind;

verus! {

/// Why a stat's value was refused.
#[derive(PartialEq, Eq, Structural, Clone, Copy, Debug)]
pub enum InvalidReason {
    /// The stat has no `value`, or one of a shape that its type does not take.
    MissingValue,
    /// A numeric stat whose `value` is not a JSON number.
    NotANumber,
    /// A `nat` stat below zero.
    NegativeNat,
    /// A `date` stat whose `value` is not a string.
    NotAString,
    /// A tally that would no longer fit in 64 bits.
    CountOverflow,
}

/// What stops an aggregation step.
#[derive(Debug)]
pub enum StatsError {
    /// A stat carries a `type` that names no stat type.
    UnknownStatType(String),
    /// A summary entry carries a `type` that names no summary type.
    UnknownAggType(String),
    /// The stat of field `key` has a value that its type refuses.
    InvalidValue { key: String, reason: InvalidReason },
    /// Field `key` holds summaries of two different types.
    TypeMismatch { key: String, existing: AggKind, incoming: AggKind },
    /// A state could not be written as bytes.
    SerializationFailed,
    /// Bytes could not be read back as a state.
    DeserializationFailed,
}

/// A `StatsError` with its texts as character sequences.
pub enum ErrView {
    UnknownStatType(Seq<char>),
    UnknownAggType(Seq<char>),
    InvalidValue(Seq<char>, InvalidReason),
    TypeMismatch(Seq<char>, AggKind, AggKind),
    SerializationFailed,
    DeserializationFailed,
}

impl View for StatsError {
    type V = ErrView;

    open spec fn view(&self) -> ErrView {
        match self {
            StatsError::UnknownStatType(t) => ErrView::UnknownStatType(t@),
            StatsError::UnknownAggType(t) => ErrView::UnknownAggType(t@),
            StatsError::InvalidValue { key, reason } => ErrView::InvalidValue(key@, *reason),
            StatsError::TypeMismatch { key, existing, incoming } => ErrView::TypeMismatch(
                key@,
                *existing,
                *incoming,
            ),
            StatsError::SerializationFailed => ErrView::SerializationFailed,
            StatsError::DeserializationFailed => ErrView::DeserializationFailed,
        }
    }
}

} // verus!
