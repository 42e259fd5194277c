//! Failure taxonomy of the data-access layer.

use vstd::prelude::*;

verus! {

/// Every way an operation of the layer can fail.
///
/// - `NotFound`: a strict read matched zero documents.
/// - `DBError`: the store client reported a transport or query failure; the
///   cause's text is preserved.
/// - `BSONSerError`: a payload could not be converted to the store's document
///   representation.
/// - `CreateFailed`: an insert was acknowledged but no usable identifier
///   could be extracted from the acknowledgement.
/// - `UpdateFailed`: an update reported a modified count other than one.
/// - `DeleteFailed`: a delete reported a deleted count other than one.
#[derive(Debug)]
pub enum Error {
    NotFound,
    DBError(String),
    BSONSerError(String),
    CreateFailed(String),
    UpdateFailed(String),
    DeleteFailed(String),
}

/// Turns the optional result of a non-strict single-document read into the
/// strict contract: a missing document is `NotFound`, never an empty success.
pub fn strict_result<T>(item: Option<T>) -> (r: Result<T, Error>)
    ensures
        match r {
            Ok(v) => item == Some(v),
            Err(e) => item is None && e is NotFound,
        },
{
    match item {
        Some(v) => Ok(v),
        None => Err(Error::NotFound),
    }
}

} // verus!
