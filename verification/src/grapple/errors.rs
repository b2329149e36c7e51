//! Typed errors surfaced by validation.

use vstd::prelude::*;

verus! {

/// A validation or protocol failure, carrying a human-readable reason.
#[derive(Debug, Clone, PartialEq, Eq)]
pub enum GrappleError {
    /// A field violates a declared range.
    ParameterOutOfBounds(String),
    /// A cross-field invariant is broken.
    FailedAssertion(String),
    /// Reserved for higher-level use.
    TimedOut(String),
    /// Catch-all.
    Generic(String),
}

pub type GrappleResult<T> = Result<T, GrappleError>;

/// The mathematical model of [`GrappleError`]: reasons as character
/// sequences.
pub enum GrappleErrorV {
    ParameterOutOfBounds(Seq<char>),
    FailedAssertion(Seq<char>),
    TimedOut(Seq<char>),
    Generic(Seq<char>),
}

impl View for GrappleError {
    type V = GrappleErrorV;

    open spec fn view(&self) -> GrappleErrorV {
        match self {
            GrappleError::ParameterOutOfBounds(s) => GrappleErrorV::ParameterOutOfBounds(s@),
            GrappleError::FailedAssertion(s) => GrappleErrorV::FailedAssertion(s@),
            GrappleError::TimedOut(s) => GrappleErrorV::TimedOut(s@),
            GrappleError::Generic(s) => GrappleErrorV::Generic(s@),
        }
    }
}

/// The view of a validation result: errors are taken to their views.
pub open spec fn err_view<T, E: View>(r: Result<T, E>) -> Result<T, E::V> {
    match r {
        Ok(t) => Ok(t),
        Err(e) => Err(e@),
    }
}

impl GrappleError {
    /// The wire code conventionally associated with each error class.
    pub open spec fn spec_error_code(&self) -> u8 {
        match self {
            GrappleError::ParameterOutOfBounds(_) => 0x00,
            GrappleError::FailedAssertion(_) => 0x01,
            GrappleError::TimedOut(_) => 0xFE,
            GrappleError::Generic(_) => 0xFF,
        }
    }

    pub fn to_error_code(&self) -> (r: u8)
        ensures
            r == self.spec_error_code(),
    {
        match self {
            GrappleError::ParameterOutOfBounds(_) => 0x00,
            GrappleError::FailedAssertion(_) => 0x01,
            GrappleError::TimedOut(_) => 0xFE,
            GrappleError::Generic(_) => 0xFF,
        }
    }

    /// The reason text, for reporting.
    pub fn reason(&self) -> (r: &String)
        ensures
            r@ == self.spec_reason(),
    {
        match self {
            GrappleError::ParameterOutOfBounds(s) => s,
            GrappleError::FailedAssertion(s) => s,
            GrappleError::TimedOut(s) => s,
            GrappleError::Generic(s) => s,
        }
    }

    pub open spec fn spec_reason(&self) -> Seq<char> {
        match self {
            GrappleError::ParameterOutOfBounds(s) => s@,
            GrappleError::FailedAssertion(s) => s@,
            GrappleError::TimedOut(s) => s@,
            GrappleError::Generic(s) => s@,
        }
    }
}

} // verus!
