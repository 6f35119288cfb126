use vstd::prelude::*;

use crate::batch::HepMatchOrder;
use crate::graph::{kid, kids, live, op_at, order_seq, subtree_seq, HepGraph, HepNodeId, PlanNode};
use crate::pattern::{Pattern, PatternChildrenPredicate};

verus! {

/// What it means for `p` to match at slot `i` of the node store:
/// the root predicate holds at `i`, and the children constraint holds —
/// nothing for `Unconstrained`; the root predicate at every slot of the
/// subtree below `i` for `Recursive`; every sub-pattern at every direct
/// child for `Predicate`.
pub open spec fn pattern_matches(nodes: Seq<PlanNode>, p: Pattern, i: int) -> bool
    decreases p,
{
    &&& live(nodes, i)
    &&& p.predicate.holds_on(op_at(nodes, i))
    &&& match p.children {
        PatternChildrenPredicate::Unconstrained => true,
        PatternChildrenPredicate::Recursive => forall|j: int|
            0 <= j < subtree_seq(nodes, i).len() ==> p.predicate.holds_on(
                op_at(nodes, #[trigger] subtree_seq(nodes, i)[j]),
            ),
        PatternChildrenPredicate::Predicate(pats) => forall|c: int, q: int|
            0 <= c < kids(nodes, i).len() && 0 <= q < pats@.len() ==> pattern_matches(
                nodes,
                #[trigger] pats@[q],
                #[trigger] kid(nodes, i, c),
            ),
    }
}

/// A match is decided at the root first: when the root predicate fails on
/// the start node's operator, the pattern does not match, whatever the
/// children hold.
pub proof fn lemma_root_predicate_short_circuit(nodes: Seq<PlanNode>, p: Pattern, i: int)
    requires
        !p.predicate.holds_on(op_at(nodes, i)),
    ensures
        !pattern_matches(nodes, p, i),
{
}

/// A pattern with an unconstrained children predicate matches any live node
/// — children or not, whatever they hold — exactly when the root predicate
/// holds on its operator.
pub proof fn lemma_unconstrained_match(nodes: Seq<PlanNode>, p: Pattern, i: int)
    requires
        p.children is Unconstrained,
    ensures
        pattern_matches(nodes, p, i) <==> (live(nodes, i) && p.predicate.holds_on(
            op_at(nodes, i),
        )),
{
}

/// A recursive pattern matches exactly when every node of the subtree below
/// the start node — the start node included — satisfies the root predicate:
/// one dissenting descendant anywhere makes it fail.
pub proof fn lemma_recursive_match(nodes: Seq<PlanNode>, p: Pattern, i: int)
    requires
        crate::graph::nodes_ok(nodes),
        live(nodes, i),
        p.children is Recursive,
    ensures
        pattern_matches(nodes, p, i) <==> (forall|j: int|
            0 <= j < subtree_seq(nodes, i).len() ==> p.predicate.holds_on(
                op_at(nodes, #[trigger] subtree_seq(nodes, i)[j]),
            )),
{
    crate::graph::lemma_subtree_live(nodes, i);
    assert(subtree_seq(nodes, i)[0] == i);
}

/// The recursive law holds for the traversal of either declared match
/// order: both visit exactly the slots of the subtree, so a recursive
/// pattern matches exactly when every node the traversal visits satisfies
/// the root predicate.
pub proof fn lemma_recursive_match_in_order(
    nodes: Seq<PlanNode>,
    p: Pattern,
    i: int,
    ord: HepMatchOrder,
)
    requires
        crate::graph::nodes_ok(nodes),
        live(nodes, i),
        p.children is Recursive,
    ensures
        pattern_matches(nodes, p, i) <==> (forall|j: int|
            0 <= j < order_seq(nodes, ord, i).len() ==> p.predicate.holds_on(
                op_at(nodes, #[trigger] order_seq(nodes, ord, i)[j]),
            )),
{
    lemma_recursive_match(nodes, p, i);
    let s = subtree_seq(nodes, i);
    let r = order_seq(nodes, ord, i);
    if ord is BottomUp {
        assert(r.len() == s.len());
        if forall|j: int| 0 <= j < s.len() ==> p.predicate.holds_on(op_at(nodes, #[trigger] s[j])) {
            assert forall|j: int| 0 <= j < r.len() implies p.predicate.holds_on(
                op_at(nodes, #[trigger] r[j]),
            ) by {
                assert(r[j] == s[s.len() - 1 - j]);
            }
        }
        if forall|j: int| 0 <= j < r.len() ==> p.predicate.holds_on(op_at(nodes, #[trigger] r[j])) {
            assert forall|j: int| 0 <= j < s.len() implies p.predicate.holds_on(
                op_at(nodes, #[trigger] s[j]),
            ) by {
                assert(r[s.len() - 1 - j] == s[j]);
            }
        }
    }
}

/// A pattern whose children predicate lists sub-patterns matches exactly
/// when the root predicate holds and every direct child independently
/// satisfies every listed sub-pattern.
pub proof fn lemma_children_match(nodes: Seq<PlanNode>, p: Pattern, i: int)
    requires
        p.children is Predicate,
    ensures
        pattern_matches(nodes, p, i) <==> (live(nodes, i) && p.predicate.holds_on(op_at(nodes, i))
            && forall|c: int, q: int|
            0 <= c < kids(nodes, i).len() && 0 <= q < p.children->Predicate_0@.len()
                ==> pattern_matches(
                nodes,
                #[trigger] p.children->Predicate_0@[q],
                #[trigger] kid(nodes, i, c),
            )),
{
}

/// Decides whether a pattern matches at a start node of a plan graph.
///
/// A matcher is a short-lived, read-only view over a fixed
/// `(pattern, start node, graph)` triple: matching never mutates the graph,
/// so many rules can probe the same graph speculatively. The start
/// identifier is required to be live — the scheduler only hands out
/// identifiers of the graph it scans — so no lookup fault can arise.
pub struct HepMatcher<'a, 'b> {
    pub pattern: &'a Pattern,
    pub start_id: HepNodeId,
    pub graph: &'b HepGraph,
}

impl<'a, 'b> HepMatcher<'a, 'b> {
    /// Builds the matcher for one pattern at one start node of one graph.
    pub fn new(pattern: &'a Pattern, start_id: HepNodeId, graph: &'b HepGraph) -> (m: Self)
        ensures
            m.pattern == pattern,
            m.start_id == start_id,
            m.graph == graph,
    {
        HepMatcher { pattern, start_id, graph }
    }

    /// Decides the match, consulting the graph read-only.
    pub fn match_opt_expr(&self) -> (r: bool)
        requires
            self.graph.wf(),
            live(self.graph.nodes@, self.start_id.0 as int),
        ensures
            r == pattern_matches(self.graph.nodes@, *self.pattern, self.start_id.0 as int),
        decreases *self.pattern,
    {
        let i = self.start_id.0;
        let op = self.graph.op_ref(self.start_id);
        if !self.pattern.predicate.evaluate(op) {
            return false;
        }
        match &self.pattern.children {
            PatternChildrenPredicate::Unconstrained => true,
            PatternChildrenPredicate::Recursive => {
                let ids = self.graph.nodes_iter(
                    HepMatchOrder::TopDown,
                    Option::Some(self.start_id),
                );
                let n = ids.len();
                let mut j: usize = 0;
                while j < n
                    invariant
                        self.graph.wf(),
                        live(self.graph.nodes@, i as int),
                        i == self.start_id.0,
                        self.pattern.children is Recursive,
                        n == ids@.len(),
                        0 <= j <= n,
                        crate::graph::ids_are(ids@, subtree_seq(self.graph.nodes@, i as int)),
                        forall|m: int|
                            0 <= m < ids@.len() ==> live(
                                self.graph.nodes@,
                                (#[trigger] ids@[m]).0 as int,
                            ),
                        forall|m: int|
                            0 <= m < j ==> self.pattern.predicate.holds_on(
                                op_at(
                                    self.graph.nodes@,
                                    #[trigger] subtree_seq(self.graph.nodes@, i as int)[m],
                                ),
                            ),
                    decreases n - j,
                {
                    let node_op = self.graph.op_ref(ids[j]);
                    if !self.pattern.predicate.evaluate(node_op) {
                        return false;
                    }
                    j += 1;
                }
                true
            },
            PatternChildrenPredicate::Predicate(pats) => {
                let children = self.graph.kids_ref(self.start_id);
                let n = children.len();
                let np = pats.len();
                let mut c: usize = 0;
                while c < n
                    invariant
                        self.graph.wf(),
                        live(self.graph.nodes@, i as int),
                        i == self.start_id.0,
                        self.pattern.children == PatternChildrenPredicate::Predicate(*pats),
                        children@ == kids(self.graph.nodes@, i as int),
                        n == children@.len(),
                        np == pats@.len(),
                        0 <= c <= n,
                        forall|c2: int, q2: int|
                            0 <= c2 < c && 0 <= q2 < np ==> pattern_matches(
                                self.graph.nodes@,
                                #[trigger] pats@[q2],
                                #[trigger] kid(self.graph.nodes@, i as int, c2),
                            ),
                    decreases n - c,
                {
                    let child = children[c];
                    proof {
                        assert(crate::graph::node_ok(self.graph.nodes@, i as int));
                        assert((i as int) < kid(self.graph.nodes@, i as int, c as int)
                            < self.graph.nodes@.len());
                    }
                    let mut q: usize = 0;
                    while q < np
                        invariant
                            self.graph.wf(),
                            live(self.graph.nodes@, i as int),
                            i == self.start_id.0,
                            self.pattern.children == PatternChildrenPredicate::Predicate(*pats),
                            children@ == kids(self.graph.nodes@, i as int),
                            n == children@.len(),
                            np == pats@.len(),
                            0 <= c < n,
                            child == children@[c as int],
                            live(self.graph.nodes@, child.0 as int),
                            0 <= q <= np,
                            forall|c2: int, q2: int|
                                0 <= c2 < c && 0 <= q2 < np ==> #[trigger] pattern_matches(
                                    self.graph.nodes@,
                                    pats@[q2],
                                    kid(self.graph.nodes@, i as int, c2),
                                ),
                            forall|q2: int|
                                0 <= q2 < q ==> pattern_matches(
                                    self.graph.nodes@,
                                    #[trigger] pats@[q2],
                                    kid(self.graph.nodes@, i as int, c as int),
                                ),
                        decreases np - q,
                    {
                        let sub = HepMatcher::new(&pats[q], child, self.graph);
                        proof {
                            assert(decreases_to!(*self.pattern => self.pattern.children));
                            assert(decreases_to!(
                                self.pattern.children => self.pattern.children->Predicate_0));
                            assert(decreases_to!(self.pattern.children->Predicate_0 => pats@));
                            assert(decreases_to!(pats@ => pats@[q as int]));
                        }
                        if !sub.match_opt_expr() {
                            proof {
                                assert(child.0 as int == kid(
                                    self.graph.nodes@,
                                    i as int,
                                    c as int,
                                ));
                                assert(!pattern_matches(
                                    self.graph.nodes@,
                                    pats@[q as int],
                                    kid(self.graph.nodes@, i as int, c as int),
                                ));
                            }
                            return false;
                        }
                        q += 1;
                    }
                    c += 1;
                }
                true
            },
        }
    }
}

} // verus!
