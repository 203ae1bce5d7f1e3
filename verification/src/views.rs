//! Views of optional values.
use vstd::prelude::*;

verus! {

/// `Some` of the view.
pub open spec fn viewed<T: View>(value: Option<T>) -> Option<T::V> {
    match value {
        Some(value) => Some(value@),
        None => None,
    }
}

/// A value that is there has its view, and one that is not has none.
pub proof fn law_view_is_of_what_is_there<T: View>(value: T)
    ensures
        viewed(Some(value)) == Some(value@),
        viewed(None::<T>) is None,
{
}

} // verus!
