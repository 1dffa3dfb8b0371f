use vstd::prelude::*;

verus! {

/// Why a read failed: either the buffer ran out, or a variable-length
/// integer used a wider form than its value needs. A shortfall met while
/// assembling a variable-length integer keeps the inner failure as its
/// source, so callers can tell the two situations apart.
#[derive(Debug)]
pub enum IsobufError {
    NotEnoughDataError { source: Option<Box<IsobufError>> },
    NonMinimalEncodingError { source: Option<Box<IsobufError>> },
}

/// A plain shortfall: the buffer ran out at the read itself.
pub open spec fn is_bare_not_enough(e: IsobufError) -> bool {
    e matches IsobufError::NotEnoughDataError { source: None }
}

/// A shortfall met while assembling a variable-length integer: the inner
/// failure is carried as the source.
pub open spec fn is_chained_not_enough(e: IsobufError) -> bool {
    e matches IsobufError::NotEnoughDataError { source: Some(inner) }
        && is_bare_not_enough(*inner)
}

/// A complete but non-canonical variable-length integer encoding.
pub open spec fn is_non_minimal(e: IsobufError) -> bool {
    e matches IsobufError::NonMinimalEncodingError { source: None }
}

} // verus!
