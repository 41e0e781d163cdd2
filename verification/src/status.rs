//! The HTTP status that answers a request which writes a row.

use vstd::prelude::*;

verus! {

/// The status that answers a request which inserts or updates a row:
/// 200 when the database accepted the statement, 400 when it refused it.
pub fn write_status(succeeded: bool) -> (status: u16)
    ensures
        succeeded ==> status == 200,
        !succeeded ==> status == 400,
{
    if succeeded {
        200
    } else {
        400
    }
}

} // verus!
