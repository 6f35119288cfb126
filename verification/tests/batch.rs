use hep_optimizer::batch::{BatchOutcome, HepBatch, HepMatchOrder, HepOptimizer, HepRule, RewriteAction};
use hep_optimizer::graph::HepGraph;
use hep_optimizer::operator::{Operator, OperatorKind};
use hep_optimizer::pattern::{Pattern, PatternChildrenPredicate, PatternPredicate};
use hep_optimizer::plan::LogicalPlan;

fn project_over_scan() -> LogicalPlan {
    LogicalPlan {
        operator: Operator::Project(1),
        childrens: vec![LogicalPlan { operator: Operator::Scan(2), childrens: vec![] }],
    }
}

fn kind_pattern(kind: OperatorKind) -> Pattern {
    Pattern {
        predicate: PatternPredicate::KindIs(kind),
        children: PatternChildrenPredicate::Unconstrained,
    }
}

#[test]
fn test_stable_in_one_scan() {
    // No rule can fire on this plan, so the batch detects the fixed point
    // in its first scan, applies nothing and leaves the graph unchanged.
    let mut graph = HepGraph::new(project_over_scan());
    let batch = HepBatch {
        match_order: HepMatchOrder::TopDown,
        max_iterations: 5,
        rules: vec![HepRule {
            pattern: kind_pattern(OperatorKind::Join),
            action: RewriteAction::WrapWith(Operator::Dummy),
        }],
    };
    let (outcome, passes) = batch.run(&mut graph);
    assert_eq!(outcome, BatchOutcome::Stable);
    assert_eq!(passes, 0);
    assert!(graph.to_plan().structurally_equal(&project_over_scan()));
}

#[test]
fn test_cap_exceeded_exactly_at_max_iterations() {
    // A rule that re-wraps every Dummy node keeps firing forever; the cap
    // stops the batch after exactly max_iterations rewriting passes.
    let mut graph = HepGraph::new(LogicalPlan { operator: Operator::Dummy, childrens: vec![] });
    let batch = HepBatch {
        match_order: HepMatchOrder::TopDown,
        max_iterations: 3,
        rules: vec![HepRule {
            pattern: kind_pattern(OperatorKind::Dummy),
            action: RewriteAction::WrapWith(Operator::Dummy),
        }],
    };
    let (outcome, passes) = batch.run(&mut graph);
    assert_eq!(outcome, BatchOutcome::CapExceeded);
    assert_eq!(passes, 3);
    // Each pass re-inserted the wrapped subtree: 1, then +2, +3, +4 slots.
    assert_eq!(graph.node_count(), 10);
    // The materialized plan is the initial leaf under three Dummy wraps.
    let back = graph.to_plan();
    assert_eq!(back.operator, Operator::Dummy);
    assert_eq!(back.childrens.len(), 1);
    assert_eq!(back.childrens[0].childrens.len(), 1);
    assert_eq!(back.childrens[0].childrens[0].childrens.len(), 1);
    assert!(back.childrens[0].childrens[0].childrens[0].childrens.is_empty());
}

#[test]
fn test_rewrite_reaches_stable() {
    // A rule that rewrites the Project root into a Dummy leaf fires once;
    // the next scan finds nothing and the batch ends stable.
    let mut graph = HepGraph::new(project_over_scan());
    let batch = HepBatch {
        match_order: HepMatchOrder::TopDown,
        max_iterations: 5,
        rules: vec![HepRule {
            pattern: kind_pattern(OperatorKind::Project),
            action: RewriteAction::ReplaceWith(LogicalPlan {
                operator: Operator::Dummy,
                childrens: vec![],
            }),
        }],
    };
    let (outcome, passes) = batch.run(&mut graph);
    assert_eq!(outcome, BatchOutcome::Stable);
    assert_eq!(passes, 1);
    let back = graph.to_plan();
    assert_eq!(back.operator, Operator::Dummy);
    assert!(back.childrens.is_empty());
}

#[test]
fn test_bottom_up_order_picks_deepest_match_first() {
    // Both nodes are Dummy; in bottom-up order the scan visits the leaf
    // before the root, so the leaf is rewritten first.
    let mut graph = HepGraph::new(LogicalPlan {
        operator: Operator::Dummy,
        childrens: vec![LogicalPlan { operator: Operator::Dummy, childrens: vec![] }],
    });
    let batch = HepBatch {
        match_order: HepMatchOrder::BottomUp,
        max_iterations: 1,
        rules: vec![HepRule {
            pattern: kind_pattern(OperatorKind::Dummy),
            action: RewriteAction::ReplaceWith(LogicalPlan {
                operator: Operator::Scan(7),
                childrens: vec![],
            }),
        }],
    };
    let (outcome, passes) = batch.run(&mut graph);
    assert_eq!(outcome, BatchOutcome::CapExceeded);
    assert_eq!(passes, 1);
    let back = graph.to_plan();
    assert_eq!(back.operator, Operator::Dummy);
    assert_eq!(back.childrens.len(), 1);
    assert_eq!(back.childrens[0].operator, Operator::Scan(7));
}

#[test]
fn test_find_best_runs_batches_in_order() {
    let optimizer = HepOptimizer::new(project_over_scan());
    let first = HepBatch {
        match_order: HepMatchOrder::TopDown,
        max_iterations: 4,
        rules: vec![HepRule {
            pattern: kind_pattern(OperatorKind::Project),
            action: RewriteAction::ReplaceWith(LogicalPlan {
                operator: Operator::Filter(3),
                childrens: vec![],
            }),
        }],
    };
    let second = HepBatch {
        match_order: HepMatchOrder::BottomUp,
        max_iterations: 4,
        rules: vec![HepRule {
            pattern: kind_pattern(OperatorKind::Filter),
            action: RewriteAction::ReplaceWith(LogicalPlan {
                operator: Operator::Dummy,
                childrens: vec![],
            }),
        }],
    };
    let mut optimizer = optimizer.batch(first).batch(second);
    let outcomes = optimizer.find_best();
    assert_eq!(outcomes, vec![BatchOutcome::Stable, BatchOutcome::Stable]);
    let back = optimizer.graph.to_plan();
    assert_eq!(back.operator, Operator::Dummy);
    assert!(back.childrens.is_empty());
}

#[test]
fn test_find_best_reports_each_batch_outcome() {
    // The first batch re-wraps Dummy nodes forever and caps out; the second
    // rewrites the wrapped root back to a Scan leaf and stabilizes.
    let optimizer = HepOptimizer::new(LogicalPlan { operator: Operator::Dummy, childrens: vec![] });
    let wrapping = HepBatch {
        match_order: HepMatchOrder::TopDown,
        max_iterations: 2,
        rules: vec![HepRule {
            pattern: kind_pattern(OperatorKind::Dummy),
            action: RewriteAction::WrapWith(Operator::Dummy),
        }],
    };
    let collapsing = HepBatch {
        match_order: HepMatchOrder::TopDown,
        max_iterations: 4,
        rules: vec![HepRule {
            pattern: kind_pattern(OperatorKind::Dummy),
            action: RewriteAction::ReplaceWith(LogicalPlan {
                operator: Operator::Scan(5),
                childrens: vec![],
            }),
        }],
    };
    let mut optimizer = optimizer.batch(wrapping).batch(collapsing);
    let outcomes = optimizer.find_best();
    assert_eq!(outcomes, vec![BatchOutcome::CapExceeded, BatchOutcome::Stable]);
    let back = optimizer.graph.to_plan();
    assert_eq!(back.operator, Operator::Scan(5));
    assert!(back.childrens.is_empty());
}
