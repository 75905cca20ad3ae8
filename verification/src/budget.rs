//! Allowances of work budgets that count what is left.

use vstd::prelude::*;

verus! {

/// A budget that counts grants a charge exactly where enough is left, and takes what it granted.
pub open spec fn spends(
    before: Option<nat>,
    after: Option<nat>,
    units: u64,
    charged: bool,
) -> bool {
    before matches Some(left) ==> {
        &&& charged == (units <= left)
        &&& after == Some(
            if charged {
                (left - units) as nat
            } else {
                left
            },
        )
    }
}

/// A budget that counts has given at most `total` units.
pub open spec fn spent_within(before: Option<nat>, after: Option<nat>, total: int) -> bool {
    before matches Some(left) ==> after matches Some(rest) && rest <= left && left - rest <= total
}

/// A budget that counts has less than `total` units left.
pub open spec fn short_of(allowance: Option<nat>, total: int) -> bool {
    allowance matches Some(left) ==> left < total
}

/// A budget that counts has given at most `total` units; and had fewer where it is said to be
/// exhausted.
pub open spec fn work_kept(
    before: Option<nat>,
    after: Option<nat>,
    exhausted: bool,
    total: int,
) -> bool {
    &&& spent_within(before, after, total)
    &&& exhausted ==> short_of(before, total)
}

} // verus!
