use hep_optimizer::graph::{HepGraph, HepNodeId};
use hep_optimizer::matcher::HepMatcher;
use hep_optimizer::operator::{Operator, OperatorKind};
use hep_optimizer::pattern::{Pattern, PatternChildrenPredicate, PatternPredicate};
use hep_optimizer::plan::LogicalPlan;

fn project_over_scan() -> LogicalPlan {
    LogicalPlan {
        operator: Operator::Project(1),
        childrens: vec![LogicalPlan { operator: Operator::Scan(2), childrens: vec![] }],
    }
}

fn all_dummy_plan() -> LogicalPlan {
    LogicalPlan {
        operator: Operator::Dummy,
        childrens: vec![
            LogicalPlan {
                operator: Operator::Dummy,
                childrens: vec![LogicalPlan { operator: Operator::Dummy, childrens: vec![] }],
            },
            LogicalPlan { operator: Operator::Dummy, childrens: vec![] },
        ],
    }
}

fn only_dummy_pattern() -> Pattern {
    Pattern {
        predicate: PatternPredicate::KindIs(OperatorKind::Dummy),
        children: PatternChildrenPredicate::Recursive,
    }
}

#[test]
fn test_predicate() {
    let graph = HepGraph::new(project_over_scan());

    let project_into_table_scan_pattern = Pattern {
        predicate: PatternPredicate::KindIs(OperatorKind::Project),
        children: PatternChildrenPredicate::Predicate(vec![Pattern {
            predicate: PatternPredicate::KindIs(OperatorKind::Scan),
            children: PatternChildrenPredicate::Unconstrained,
        }]),
    };

    assert!(
        HepMatcher::new(&project_into_table_scan_pattern, HepNodeId::new(0), &graph)
            .match_opt_expr()
    );
}

#[test]
fn test_recursive() {
    let graph = HepGraph::new(all_dummy_plan());

    let only_dummy_pattern = only_dummy_pattern();

    assert!(HepMatcher::new(&only_dummy_pattern, HepNodeId::new(0), &graph).match_opt_expr());
}

#[test]
fn test_root_predicate_short_circuit() {
    // The root predicate fails on the start node, so the match is decided
    // there and then, children notwithstanding.
    let graph = HepGraph::new(all_dummy_plan());

    let scan_pattern = Pattern {
        predicate: PatternPredicate::KindIs(OperatorKind::Scan),
        children: PatternChildrenPredicate::Recursive,
    };

    assert!(!HepMatcher::new(&scan_pattern, HepNodeId::new(0), &graph).match_opt_expr());
}

#[test]
fn test_unconstrained_matches_node_with_children() {
    // Children predicate Unconstrained: the root predicate alone decides,
    // even though the node has children of other kinds.
    let graph = HepGraph::new(project_over_scan());

    let bare_project = Pattern {
        predicate: PatternPredicate::KindIs(OperatorKind::Project),
        children: PatternChildrenPredicate::Unconstrained,
    };
    assert!(HepMatcher::new(&bare_project, HepNodeId::new(0), &graph).match_opt_expr());

    let bare_filter = Pattern {
        predicate: PatternPredicate::KindIs(OperatorKind::Filter),
        children: PatternChildrenPredicate::Unconstrained,
    };
    assert!(!HepMatcher::new(&bare_filter, HepNodeId::new(0), &graph).match_opt_expr());
}

#[test]
fn test_recursive_dissenting_descendant() {
    // One non-Dummy node anywhere in the subtree makes the recursive
    // pattern fail, wherever it sits.
    let mut deviant_grandchild = all_dummy_plan();
    deviant_grandchild.childrens[0].childrens[0].operator = Operator::Scan(9);
    let graph = HepGraph::new(deviant_grandchild);
    assert!(!HepMatcher::new(&only_dummy_pattern(), HepNodeId::new(0), &graph).match_opt_expr());

    let mut deviant_child = all_dummy_plan();
    deviant_child.childrens[1].operator = Operator::Join(3);
    let graph = HepGraph::new(deviant_child);
    assert!(!HepMatcher::new(&only_dummy_pattern(), HepNodeId::new(0), &graph).match_opt_expr());

    let mut deviant_root = all_dummy_plan();
    deviant_root.operator = Operator::Filter(0);
    let graph = HepGraph::new(deviant_root);
    assert!(!HepMatcher::new(&only_dummy_pattern(), HepNodeId::new(0), &graph).match_opt_expr());
}

#[test]
fn test_children_pattern_rejects_wrong_child() {
    let plan = LogicalPlan {
        operator: Operator::Project(1),
        childrens: vec![LogicalPlan { operator: Operator::Filter(2), childrens: vec![] }],
    };
    let graph = HepGraph::new(plan);

    let project_into_table_scan_pattern = Pattern {
        predicate: PatternPredicate::KindIs(OperatorKind::Project),
        children: PatternChildrenPredicate::Predicate(vec![Pattern {
            predicate: PatternPredicate::KindIs(OperatorKind::Scan),
            children: PatternChildrenPredicate::Unconstrained,
        }]),
    };

    assert!(
        !HepMatcher::new(&project_into_table_scan_pattern, HepNodeId::new(0), &graph)
            .match_opt_expr()
    );
}

#[test]
fn test_children_pattern_every_child() {
    // Every direct child is checked against every sub-pattern in the list.
    let both_scans = LogicalPlan {
        operator: Operator::Join(0),
        childrens: vec![
            LogicalPlan { operator: Operator::Scan(1), childrens: vec![] },
            LogicalPlan { operator: Operator::Scan(2), childrens: vec![] },
        ],
    };
    let scan_child_pattern = Pattern {
        predicate: PatternPredicate::KindIs(OperatorKind::Join),
        children: PatternChildrenPredicate::Predicate(vec![Pattern {
            predicate: PatternPredicate::KindIs(OperatorKind::Scan),
            children: PatternChildrenPredicate::Unconstrained,
        }]),
    };
    let graph = HepGraph::new(both_scans);
    assert!(HepMatcher::new(&scan_child_pattern, HepNodeId::new(0), &graph).match_opt_expr());

    let mixed_children = LogicalPlan {
        operator: Operator::Join(0),
        childrens: vec![
            LogicalPlan { operator: Operator::Scan(1), childrens: vec![] },
            LogicalPlan { operator: Operator::Filter(2), childrens: vec![] },
        ],
    };
    let graph = HepGraph::new(mixed_children);
    assert!(!HepMatcher::new(&scan_child_pattern, HepNodeId::new(0), &graph).match_opt_expr());
}

#[test]
fn test_match_at_inner_node() {
    // A matcher can start anywhere, not only at the root: the scan child of
    // the plan sits at identifier 1 (pre-order numbering).
    let graph = HepGraph::new(project_over_scan());
    let bare_scan = Pattern {
        predicate: PatternPredicate::KindIs(OperatorKind::Scan),
        children: PatternChildrenPredicate::Unconstrained,
    };
    assert!(HepMatcher::new(&bare_scan, HepNodeId::new(1), &graph).match_opt_expr());
    assert!(!HepMatcher::new(&bare_scan, HepNodeId::new(0), &graph).match_opt_expr());
}
