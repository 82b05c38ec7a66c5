//! Running totals over the external records.

use vstd::prelude::*;
use crate::amount::Amount;
use crate::amount::MAX_UNITS;
use crate::record::ExternalRecord;

verus! {

/// The part of a count of units that is above zero.
pub open spec fn gain(units: int) -> int {
    if units > 0 {
        units
    } else {
        0
    }
}

/// The part of a count of units that is below zero.
pub open spec fn loss(units: int) -> int {
    if units < 0 {
        units
    } else {
        0
    }
}

/// The sum of the signed amounts of the records.
pub open spec fn total_of(records: Seq<ExternalRecord>) -> int
    decreases records.len(),
{
    if records.len() == 0 {
        0
    } else {
        total_of(records.drop_last()) + records.last().signed_units()
    }
}

/// The sum of the signed amounts that are above zero.
pub open spec fn inflow_of(records: Seq<ExternalRecord>) -> int
    decreases records.len(),
{
    if records.len() == 0 {
        0
    } else {
        inflow_of(records.drop_last()) + gain(records.last().signed_units())
    }
}

/// The sum of the signed amounts that are below zero.
pub open spec fn outflow_of(records: Seq<ExternalRecord>) -> int
    decreases records.len(),
{
    if records.len() == 0 {
        0
    } else {
        outflow_of(records.drop_last()) + loss(records.last().signed_units())
    }
}

/// Three accumulators, in hundred-millionths.
#[derive(Clone, Copy, Debug, PartialEq, Eq, Structural)]
pub struct Totals {
    /// The sum of all signed amounts.
    pub total: i128,
    /// The sum of the amounts that came in.
    pub inflow: i128,
    /// The sum of the amounts that went out; never above zero.
    pub outflow: i128,
}

impl Totals {
    /// Whether these are the totals of the records.
    pub open spec fn sums_up(self, records: Seq<ExternalRecord>) -> bool {
        &&& self.total == total_of(records)
        &&& self.inflow == inflow_of(records)
        &&& self.outflow == outflow_of(records)
    }

    /// Whether the totals are such as at most `count` amounts add up to.
    pub open spec fn within(self, count: int) -> bool {
        &&& -count * MAX_UNITS <= self.total <= count * MAX_UNITS
        &&& 0 <= self.inflow <= count * MAX_UNITS
        &&& -count * MAX_UNITS <= self.outflow <= 0
    }

    /// The totals of no records.
    pub fn zero() -> (r: Totals)
        ensures
            r.sums_up(Seq::empty()),
            r.within(0),
    {
        Totals { total: 0, inflow: 0, outflow: 0 }
    }

    /// Whether a sum fits an accumulator.
    pub open spec fn holds(sum: int) -> bool {
        i128::MIN <= sum <= i128::MAX
    }

    /// The totals with one more amount taken in; `None` where a sum would
    /// not fit its accumulator.
    pub fn absorb(&self, amount: Amount) -> (r: Option<Totals>)
        ensures
            r is Some <==> Self::holds(self.total + amount@) && Self::holds(
                self.inflow + gain(amount@),
            ) && Self::holds(self.outflow + loss(amount@)),
            r matches Some(t) ==> {
                &&& t.total == self.total + amount@
                &&& t.inflow == self.inflow + gain(amount@)
                &&& t.outflow == self.outflow + loss(amount@)
            },
    {
        let units = amount.units() as i128;
        let total = match self.total.checked_add(units) {
            Some(sum) => sum,
            None => { return None; },
        };
        let inflow = if units > 0 {
            match self.inflow.checked_add(units) {
                Some(sum) => sum,
                None => { return None; },
            }
        } else {
            self.inflow
        };
        let outflow = if units < 0 {
            match self.outflow.checked_add(units) {
                Some(sum) => sum,
                None => { return None; },
            }
        } else {
            self.outflow
        };
        Some(Totals { total, inflow, outflow })
    }
}

/// The totals after each of the records: the entry at `k` holds the sums
/// over the records up to and including the one at `k`. No sum overflows,
/// however many records there are.
pub fn running_totals(externals: &Vec<ExternalRecord>) -> (r: Vec<Totals>)
    ensures
        r@.len() == externals@.len(),
        forall|k: int| 0 <= k < r@.len() ==> (#[trigger] r@[k]).sums_up(externals@.take(k + 1)),
{
    let mut totals: Vec<Totals> = Vec::new();
    let mut current = Totals::zero();
    let mut k: usize = 0;
    while k < externals.len()
        invariant
            0 <= k <= externals@.len(),
            totals@.len() == k,
            current.sums_up(externals@.take(k as int)),
            current.within(k as int),
            forall|j: int| 0 <= j < k ==> (#[trigger] totals@[j]).sums_up(externals@.take(j + 1)),
        decreases externals@.len() - k,
    {
        let amount = externals[k].signed_amount();
        proof {
            assert(externals@.take(k + 1).drop_last() == externals@.take(k as int));
            assert(k * MAX_UNITS <= (usize::MAX - 1) * MAX_UNITS) by (nonlinear_arith)
                requires
                    0 <= k <= usize::MAX - 1,
            ;
        }
        current = current.absorb(amount).unwrap();
        totals.push(current);
        k = k + 1;
    }
    totals
}

} // verus!
