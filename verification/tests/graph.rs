use hep_optimizer::batch::HepMatchOrder;
use hep_optimizer::graph::{HepError, HepGraph, HepNodeId};
use hep_optimizer::operator::Operator;
use hep_optimizer::plan::LogicalPlan;

fn sample_plan() -> LogicalPlan {
    LogicalPlan {
        operator: Operator::Project(10),
        childrens: vec![
            LogicalPlan {
                operator: Operator::Filter(20),
                childrens: vec![LogicalPlan { operator: Operator::Scan(30), childrens: vec![] }],
            },
            LogicalPlan { operator: Operator::Scan(40), childrens: vec![] },
        ],
    }
}

#[test]
fn test_operator_lookup() {
    let graph = HepGraph::new(sample_plan());
    assert_eq!(graph.operator(HepNodeId::new(0)), Ok(&Operator::Project(10)));
    assert_eq!(graph.operator(HepNodeId::new(2)), Ok(&Operator::Scan(30)));
    assert_eq!(graph.operator(HepNodeId::new(99)), Err(HepError::NodeNotFound));
}

#[test]
fn test_children_at() {
    let graph = HepGraph::new(sample_plan());
    let root_children = graph.children_at(HepNodeId::new(0)).unwrap();
    assert_eq!(root_children, &vec![HepNodeId::new(1), HepNodeId::new(3)]);
    let leaf_children = graph.children_at(HepNodeId::new(2)).unwrap();
    assert!(leaf_children.is_empty());
    assert_eq!(graph.children_at(HepNodeId::new(4)), Err(HepError::NodeNotFound));
}

#[test]
fn test_nodes_iter_orders() {
    // Identifiers are assigned in pre-order, so the top-down scan of the
    // whole plan is 0..n and the bottom-up scan is its reverse.
    let graph = HepGraph::new(sample_plan());
    let top_down = graph.nodes_iter(HepMatchOrder::TopDown, None);
    assert_eq!(
        top_down,
        vec![HepNodeId::new(0), HepNodeId::new(1), HepNodeId::new(2), HepNodeId::new(3)]
    );
    let bottom_up = graph.nodes_iter(HepMatchOrder::BottomUp, None);
    assert_eq!(
        bottom_up,
        vec![HepNodeId::new(3), HepNodeId::new(2), HepNodeId::new(1), HepNodeId::new(0)]
    );
    let subtree = graph.nodes_iter(HepMatchOrder::TopDown, Some(HepNodeId::new(1)));
    assert_eq!(subtree, vec![HepNodeId::new(1), HepNodeId::new(2)]);
}

#[test]
fn test_round_trip() {
    // Wrapping a plan into a graph and materializing it back yields an
    // observably identical tree when no rule has fired.
    let graph = HepGraph::new(sample_plan());
    let back = graph.to_plan();
    assert!(back.structurally_equal(&sample_plan()));
    let again = HepGraph::new(back).to_plan();
    assert!(again.structurally_equal(&sample_plan()));
}

#[test]
fn test_structurally_equal_negative() {
    let mut other = sample_plan();
    other.childrens[0].operator = Operator::Filter(21);
    assert!(!sample_plan().structurally_equal(&other));
    let mut shorter = sample_plan();
    shorter.childrens.pop();
    assert!(!sample_plan().structurally_equal(&shorter));
}

#[test]
fn test_replace_node_child() {
    let mut graph = HepGraph::new(sample_plan());
    let replacement = LogicalPlan { operator: Operator::Dummy, childrens: vec![] };
    graph.replace_node(HepNodeId::new(1), &replacement);
    // The root still holds its operator; its first child edge now leads to
    // the fresh Dummy leaf.
    let back = graph.to_plan();
    assert_eq!(back.operator, Operator::Project(10));
    assert_eq!(back.childrens.len(), 2);
    assert_eq!(back.childrens[0].operator, Operator::Dummy);
    assert!(back.childrens[0].childrens.is_empty());
    assert_eq!(back.childrens[1].operator, Operator::Scan(40));
}

#[test]
fn test_replace_node_root() {
    let mut graph = HepGraph::new(sample_plan());
    let old_root = graph.root();
    let replacement = LogicalPlan {
        operator: Operator::Scan(50),
        childrens: vec![],
    };
    graph.replace_node(old_root, &replacement);
    assert_ne!(graph.root(), old_root);
    let back = graph.to_plan();
    assert_eq!(back.operator, Operator::Scan(50));
    assert!(back.childrens.is_empty());
}

#[test]
fn test_set_root() {
    let mut graph = HepGraph::new(sample_plan());
    graph.set_root(HepNodeId::new(1));
    assert_eq!(graph.root(), HepNodeId::new(1));
    let back = graph.to_plan();
    assert_eq!(back.operator, Operator::Filter(20));
    assert_eq!(back.childrens.len(), 1);
}

#[test]
fn test_node_count() {
    let graph = HepGraph::new(sample_plan());
    assert_eq!(graph.node_count(), 4);
}
