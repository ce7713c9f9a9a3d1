use vstd::prelude::*;
use vstd::string::*;

use crate::text::{decimal, decimal_text};

verus! {

/// How many steps of busy work a match takes.
pub const MATCHING_STEPS: u32 = 500_000_000;

/// The message that reports a matched order.
pub open spec fn matched_message(order_id: u64) -> Seq<char> {
    "订单 "@ + decimal(order_id as nat) + " 撮合成功 "@
}

/// Matches an order: a long stretch of CPU-bound work, then the message that
/// the order was matched.
pub fn heavy_matching_logic(order_id: u64) -> (r: String)
    ensures
        r@ == matched_message(order_id),
{
    let mut burn_cpu: i32 = 0;
    for step in 0..MATCHING_STEPS
        invariant
            burn_cpu == step,
    {
        burn_cpu = burn_cpu + 1;
    }
    let mut r = String::from_str("订单 ");
    let digits = decimal_text(order_id);
    r.append(digits.as_str());
    r.append(" 撮合成功 ");
    r
}

} // verus!
