//! The errors that writing a file can end in.
use vstd::prelude::*;
use vstd::std_specs::cmp::PartialEqSpecImpl;

verus! {

/// Why an operation on a writer failed.
#[derive(Debug)]
pub enum TsFileError {
    /// A failure with no class of its own.
    Error { source: Option<String> },
    /// The bytes could not be written.
    WriteError,
    /// A timestamp was not greater than the last one of its series.
    OutOfOrderData,
    /// An unknown device or measurement, or a broken internal invariant.
    IllegalState { source: Option<String> },
    /// The compression failed.
    Compression,
    /// The value's variant is not the type that the series declares.
    WrongTypeForSeries,
    /// No encoder exists for the data type and encoding asked for.
    Encoding,
}

/// Whether two optional texts are the same.
pub open spec fn same_text(a: Option<String>, b: Option<String>) -> bool {
    match (a, b) {
        (Some(x), Some(y)) => x@ == y@,
        (None, None) => true,
        _ => false,
    }
}

fn text_eq(a: &Option<String>, b: &Option<String>) -> (same: bool)
    ensures
        same == same_text(*a, *b),
{
    match a {
        Some(x) => match b {
            Some(y) => *x == *y,
            None => false,
        },
        None => match b {
            Some(_) => false,
            None => true,
        },
    }
}

impl TsFileError {
    /// Whether `self` and `other` are the same error.
    pub open spec fn same_as(&self, other: &TsFileError) -> bool {
        match (*self, *other) {
            (TsFileError::Error { source: a }, TsFileError::Error { source: b }) => same_text(a, b),
            (TsFileError::WriteError, TsFileError::WriteError) => true,
            (TsFileError::OutOfOrderData, TsFileError::OutOfOrderData) => true,
            (
                TsFileError::IllegalState { source: a },
                TsFileError::IllegalState { source: b },
            ) => same_text(a, b),
            (TsFileError::Compression, TsFileError::Compression) => true,
            (TsFileError::WrongTypeForSeries, TsFileError::WrongTypeForSeries) => true,
            (TsFileError::Encoding, TsFileError::Encoding) => true,
            _ => false,
        }
    }
}

impl PartialEq for TsFileError {
    fn eq(&self, other: &Self) -> (same: bool) {
        match self {
            TsFileError::Error { source: a } => match other {
                TsFileError::Error { source: b } => text_eq(a, b),
                _ => false,
            },
            TsFileError::WriteError => match other {
                TsFileError::WriteError => true,
                _ => false,
            },
            TsFileError::OutOfOrderData => match other {
                TsFileError::OutOfOrderData => true,
                _ => false,
            },
            TsFileError::IllegalState { source: a } => match other {
                TsFileError::IllegalState { source: b } => text_eq(a, b),
                _ => false,
            },
            TsFileError::Compression => match other {
                TsFileError::Compression => true,
                _ => false,
            },
            TsFileError::WrongTypeForSeries => match other {
                TsFileError::WrongTypeForSeries => true,
                _ => false,
            },
            TsFileError::Encoding => match other {
                TsFileError::Encoding => true,
                _ => false,
            },
        }
    }
}

impl PartialEqSpecImpl for TsFileError {
    open spec fn obeys_eq_spec() -> bool {
        true
    }

    open spec fn eq_spec(&self, other: &TsFileError) -> bool {
        self.same_as(other)
    }
}

} // verus!
