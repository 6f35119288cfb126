use vstd::prelude::*;

use crate::operator::{Operator, OperatorKind};

verus! {

/// The predicate of a [`Pattern`] over a single [`Operator`].
///
/// Predicates are a closed set of kinds rather than function values, so that
/// patterns stay plain, cheaply clonable data with no tie to any graph.
#[derive(Clone, Copy, PartialEq, Eq, Structural, Debug)]
pub enum PatternPredicate {
    /// Satisfied by every operator.
    Always,
    /// Satisfied exactly by operators of the given variant.
    KindIs(OperatorKind),
}

impl PatternPredicate {
    /// Whether the predicate is satisfied by `op`.
    pub open spec fn holds_on(self, op: Operator) -> bool {
        match self {
            PatternPredicate::Always => true,
            PatternPredicate::KindIs(k) => op.kind() == k,
        }
    }

    /// Evaluates the predicate on one operator.
    pub fn evaluate(&self, op: &Operator) -> (r: bool)
        ensures
            r == self.holds_on(*op),
    {
        match self {
            PatternPredicate::Always => true,
            PatternPredicate::KindIs(k) => op.kind_of() == *k,
        }
    }
}

/// How a [`Pattern`] constrains the surroundings of the matched node.
pub enum PatternChildrenPredicate {
    /// No constraint on children: the root predicate alone decides.
    Unconstrained,
    /// Every node of the subtree rooted at the matched node, the matched
    /// node included, must satisfy the same root predicate.
    Recursive,
    /// Every direct child of the matched node must satisfy every pattern of
    /// the list, each checked independently.
    Predicate(Vec<Pattern>),
}

/// A declarative description of a plan shape: a predicate over the operator
/// at the candidate node, plus a constraint on its children.
///
/// Patterns are immutable values with no relation to any particular graph;
/// the same pattern is re-evaluated against many candidate nodes.
pub struct Pattern {
    pub predicate: PatternPredicate,
    pub children: PatternChildrenPredicate,
}

} // verus!
