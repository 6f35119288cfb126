use vstd::prelude::*;

verus! {

/// One relational algebra step of a logical plan.
///
/// The payload of a variant is an opaque handle standing for the operator's
/// own content (projection list, predicate, join condition, ...); the
/// matching kernel never interprets it, it only inspects the variant.
#[derive(Clone, Copy, PartialEq, Eq, Structural, Debug)]
pub enum Operator {
    Dummy,
    Scan(u64),
    Project(u64),
    Filter(u64),
    Join(u64),
}

/// The variant of an [`Operator`], without its payload.
#[derive(Clone, Copy, PartialEq, Eq, Structural, Debug)]
pub enum OperatorKind {
    Dummy,
    Scan,
    Project,
    Filter,
    Join,
}

impl Operator {
    /// The variant of this operator.
    pub open spec fn kind(self) -> OperatorKind {
        match self {
            Operator::Dummy => OperatorKind::Dummy,
            Operator::Scan(_) => OperatorKind::Scan,
            Operator::Project(_) => OperatorKind::Project,
            Operator::Filter(_) => OperatorKind::Filter,
            Operator::Join(_) => OperatorKind::Join,
        }
    }

    /// Returns the variant of this operator.
    pub fn kind_of(&self) -> (k: OperatorKind)
        ensures
            k == self.kind(),
    {
        match self {
            Operator::Dummy => OperatorKind::Dummy,
            Operator::Scan(_) => OperatorKind::Scan,
            Operator::Project(_) => OperatorKind::Project,
            Operator::Filter(_) => OperatorKind::Filter,
            Operator::Join(_) => OperatorKind::Join,
        }
    }
}

} // verus!
