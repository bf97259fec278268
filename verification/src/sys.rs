//! The one call this library makes into the host system: querying the
//! memory page size that the in-memory devices report as their I/O block
//! size.

use vstd::prelude::*;

verus! {

/// Relies on `page_size::get`: the system's memory page size, cached by
/// that crate after the first query. Nothing is assumed of the value,
/// since it depends on the machine.
#[verifier::external_body]
pub(crate) fn system_page_size() -> usize {
    page_size::get()
}

} // verus!
