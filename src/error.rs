//! The library's errors.

use vstd::prelude::*;

verus! {

/// What can go wrong in the watch-update pipeline and the command layer.
#[derive(Debug, Clone, PartialEq)]
pub enum Error {
    /// An upstream response of tori.fi could not be read.
    Tori,
    /// A URL that no site adapter accepts, or that cannot be translated.
    UnknownUrl(String),
    /// The watch to be added exists already.
    VahtiExists,
    /// A listing record lacks what a listing needs.
    InvalidItem,
    /// A watch record belongs to another site than the adapter it was given to.
    WrongSite,
}

/// The human-readable description of an error.
pub open spec fn error_text(e: Error) -> Seq<char> {
    match e {
        Error::Tori => "Tori has done some stupiding"@,
        Error::UnknownUrl(u) => "Unknown url passed: "@ + u@,
        Error::VahtiExists => "The specified Vahti already exists"@,
        Error::InvalidItem => "Invalid Item passed"@,
        Error::WrongSite => "The Vahti belongs to another site"@,
    }
}

impl Error {
    /// A human-readable description of the error.
    pub fn message(&self) -> (r: String)
        ensures
            r@ == error_text(*self),
    {
        match self {
            Error::Tori => String::from_str("Tori has done some stupiding"),
            Error::UnknownUrl(u) => {
                let mut m = String::from_str("Unknown url passed: ");
                m.append(u.as_str());
                m
            },
            Error::VahtiExists => String::from_str("The specified Vahti already exists"),
            Error::InvalidItem => String::from_str("Invalid Item passed"),
            Error::WrongSite => String::from_str("The Vahti belongs to another site"),
        }
    }
}

} // verus!
