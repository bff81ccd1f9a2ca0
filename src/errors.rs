//! Errors and warnings of a synchronization run.

use vstd::prelude::*;
use crate::check;
use crate::timestamp::Timestamp;

verus! {

#[verifier::external_type_specification]
#[verifier::external_body]
pub struct ExIoError(std::io::Error);

/// A problem that does not stop a conversion.
#[derive(Debug)]
pub enum Warning {
    /// A named link whose encoded code differs from the code block it follows.
    EncodedUrlMismatch { actual: String, expect: String },
}

/// The text of a warning as (actual, expected).
pub open spec fn warning_view(w: Warning) -> (Seq<char>, Seq<char>) {
    match w {
        Warning::EncodedUrlMismatch { actual, expect } => (actual@, expect@),
    }
}

/// Why a run stopped.
#[derive(Debug)]
pub enum Error {
    IoError(std::io::Error),
    CheckInputError { error: check::Error },
    MtimeError(String),
    ConcurrentUpdate { path_buf: String, old_time: Timestamp, new_time: Timestamp },
    Warnings(Vec<Warning>),
}

} // verus!
