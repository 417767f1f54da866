use vstd::prelude::*;

verus! {

/// Errors reported by the library.
#[derive(Debug, Clone)]
pub enum PlazaError {
    /// The requested object does not exist; the message names it.
    NotFound(String),
    /// The request cannot be honoured in the current state.
    Internal(String),
}

/// The result type of fallible operations of the library.
pub type PlazaResult<T> = Result<T, PlazaError>;

/// The result is an error of kind `Internal` with the message.
pub open spec fn is_internal<T>(r: PlazaResult<T>, message: Seq<char>) -> bool {
    r matches Err(PlazaError::Internal(m)) && m@ == message
}

/// The result is an error of kind `NotFound` with the message.
pub open spec fn is_not_found<T>(r: PlazaResult<T>, message: Seq<char>) -> bool {
    r matches Err(PlazaError::NotFound(m)) && m@ == message
}

/// The error predicates say which kind of error a result is and what its
/// message holds, and neither holds of a success.
pub proof fn lemma_error_kinds<T>(r: PlazaResult<T>, message: Seq<char>)
    ensures
        is_internal(r, message) <==> (r is Err && r->Err_0 is Internal && r->Err_0->Internal_0@ == message),
        is_not_found(r, message) <==> (r is Err && r->Err_0 is NotFound && r->Err_0->NotFound_0@ == message),
        !(is_internal(r, message) && is_not_found(r, message)),
{
}

} // verus!
