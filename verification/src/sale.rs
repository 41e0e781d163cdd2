//! Sales.

use vstd::prelude::*;

verus! {

/// A recorded sale. The day of a sale is counted in days from the first day
/// of the common era (day 1 is 0001-01-01), so that days compare as the dates
/// do; the total price is kept as the bit pattern of a 32-bit float.
pub struct Sale {
    pub id: Option<i32>,
    pub timestamp: Option<i32>,
    pub menu_items_id: Vec<i32>,
    pub total_sales_price_bits: u32,
    pub employee_id: i32,
}

} // verus!
