use vstd::prelude::*;

use crate::operator::Operator;

verus! {

/// A logical plan as a plain tree: one operator and its ordered sub-plans.
///
/// This is the form in which a plan enters the engine (from the binder) and
/// leaves it (towards physical planning). During optimization the plan lives
/// inside a [`crate::graph::HepGraph`] instead.
pub struct LogicalPlan {
    pub operator: Operator,
    pub childrens: Vec<LogicalPlan>,
}

/// Number of nodes of a plan tree.
pub open spec fn plan_size(p: LogicalPlan) -> nat
    decreases p, 1int, 0int,
{
    1 + sizes_to(p.childrens@, p.childrens@.len() as int)
}

/// Number of nodes of the first `k` plans of a sequence, together.
pub open spec fn sizes_to(plans: Seq<LogicalPlan>, k: int) -> nat
    decreases plans, 0int, k,
{
    if 0 < k <= plans.len() {
        sizes_to(plans, k - 1) + plan_size(plans[k - 1])
    } else {
        0
    }
}

/// Structural identity of two plan trees: same operators, same child order.
pub open spec fn plan_equiv(p: LogicalPlan, q: LogicalPlan) -> bool
    decreases p,
{
    &&& p.operator == q.operator
    &&& p.childrens@.len() == q.childrens@.len()
    &&& forall|k: int|
        0 <= k < p.childrens@.len() ==> plan_equiv(#[trigger] p.childrens@[k], q.childrens@[k])
}

impl LogicalPlan {
    /// Decides structural identity with another plan tree.
    pub fn structurally_equal(&self, other: &LogicalPlan) -> (r: bool)
        ensures
            r == plan_equiv(*self, *other),
        decreases *self,
    {
        if self.operator != other.operator {
            return false;
        }
        if self.childrens.len() != other.childrens.len() {
            return false;
        }
        let n = self.childrens.len();
        let mut k: usize = 0;
        while k < n
            invariant
                n == self.childrens@.len(),
                n == other.childrens@.len(),
                self.operator == other.operator,
                0 <= k <= n,
                forall|j: int|
                    0 <= j < k ==> plan_equiv(#[trigger] self.childrens@[j], other.childrens@[j]),
            decreases n - k,
        {
            if !self.childrens[k].structurally_equal(&other.childrens[k]) {
                return false;
            }
            k += 1;
        }
        true
    }
}

} // verus!
