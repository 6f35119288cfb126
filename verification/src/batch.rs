use vstd::prelude::*;

use crate::graph::{order_seq, plan_in, replaced, HepGraph, PlanNode};
use crate::matcher::{pattern_matches, HepMatcher};
use crate::operator::Operator;
use crate::pattern::Pattern;
use crate::plan::LogicalPlan;

verus! {

/// Traversal discipline for subtree scans and rule scheduling.
#[derive(Clone, Copy, PartialEq, Eq, Structural, Debug)]
pub enum HepMatchOrder {
    /// Parents are visited before their children.
    TopDown,
    /// Children are visited before their parents.
    BottomUp,
}

/// The rewrite performed by a rule once its pattern has matched.
///
/// Actions are a closed set of graph edits, so that a rule stays plain data
/// whose effect on the graph can be stated exactly.
pub enum RewriteAction {
    /// Replace the matched subtree by a freshly inserted copy of the plan.
    ReplaceWith(LogicalPlan),
    /// Re-wrap the matched subtree under a new parent with this operator.
    WrapWith(Operator),
}

/// A rewrite rule: a pattern paired with the action applied where it matches.
pub struct HepRule {
    pub pattern: Pattern,
    pub action: RewriteAction,
}

/// An ordered group of rules applied together under one match order and one
/// iteration cap.
pub struct HepBatch {
    pub match_order: HepMatchOrder,
    pub max_iterations: usize,
    pub rules: Vec<HepRule>,
}

/// Terminal state of one batch run.
#[derive(Clone, Copy, PartialEq, Eq, Structural, Debug)]
pub enum BatchOutcome {
    /// A full scan fired no rule: a fixed point was reached.
    Stable,
    /// The iteration cap was reached before a fixed point.
    CapExceeded,
}

/// The slot indices one scan of the batch visits, in the batch's match
/// order, starting from the root.
pub open spec fn scan_order(nodes: Seq<PlanNode>, root: int, b: HepBatch) -> Seq<int> {
    order_seq(nodes, b.match_order, root)
}

/// A fixed point of the batch: no rule's pattern matches at any visited node.
pub open spec fn no_rule_matches(nodes: Seq<PlanNode>, root: int, b: HepBatch) -> bool {
    forall|j: int, q: int|
        0 <= j < scan_order(nodes, root, b).len() && 0 <= q < b.rules@.len()
            ==> !pattern_matches(
            nodes,
            (#[trigger] b.rules@[q]).pattern,
            #[trigger] scan_order(nodes, root, b)[j],
        )
}

/// Rule `q` matches at the `j`-th visited node and no rule matches earlier:
/// not at an earlier node, nor an earlier rule at the same node. This pins
/// the deterministic rewrite order of a scan.
pub open spec fn first_firing(nodes: Seq<PlanNode>, root: int, b: HepBatch, j: int, q: int) -> bool {
    &&& 0 <= j < scan_order(nodes, root, b).len()
    &&& 0 <= q < b.rules@.len()
    &&& pattern_matches(nodes, b.rules@[q].pattern, scan_order(nodes, root, b)[j])
    &&& forall|j2: int, q2: int|
        0 <= j2 < scan_order(nodes, root, b).len() && 0 <= q2 < b.rules@.len() && (j2 < j || (j2
            == j && q2 < q)) ==> !pattern_matches(
            nodes,
            (#[trigger] b.rules@[q2]).pattern,
            #[trigger] scan_order(nodes, root, b)[j2],
        )
}

/// How an action relates the store before and after it ran at slot `at`.
pub open spec fn action_applied(
    oldn: Seq<PlanNode>,
    old_root: int,
    newn: Seq<PlanNode>,
    new_root: int,
    at: int,
    a: RewriteAction,
) -> bool {
    match a {
        RewriteAction::ReplaceWith(p) => replaced(oldn, old_root, newn, new_root, at, p),
        RewriteAction::WrapWith(op) => exists|w: LogicalPlan|
            {
                &&& #[trigger] replaced(oldn, old_root, newn, new_root, at, w)
                &&& w.operator == op
                &&& w.childrens@.len() == 1
                &&& plan_in(oldn, at, w.childrens@[0])
            },
    }
}

/// One scheduling step: the first firing rule of a scan of `g1` applied its
/// action, which turned the graph into `g2`.
pub open spec fn scan_step(g1: HepGraph, g2: HepGraph, b: HepBatch) -> bool {
    exists|j: int, q: int|
        #[trigger] first_firing(g1.nodes@, g1.root_id(), b, j, q) && action_applied(
            g1.nodes@,
            g1.root_id(),
            g2.nodes@,
            g2.root_id(),
            scan_order(g1.nodes@, g1.root_id(), b)[j],
            b.rules@[q].action,
        )
}

/// `g2` is reached from `g1` by exactly `n` scheduling steps of the batch.
pub open spec fn steps_to(g1: HepGraph, g2: HepGraph, b: HepBatch, n: nat) -> bool
    decreases n,
{
    if n == 0 {
        g2 == g1
    } else {
        exists|mid: HepGraph|
            steps_to(g1, mid, b, (n - 1) as nat) && #[trigger] scan_step(mid, g2, b)
    }
}

/// A rule that matches unconditionally — its predicate satisfied by every
/// operator, its children unconstrained — fires on every consistent graph:
/// no graph is a fixed point of a batch holding such a rule. By the
/// contract of [`HepBatch::run`], a run of such a batch therefore never
/// ends `Stable`: it ends `CapExceeded` after exactly `max_iterations`
/// rewriting passes, instead of looping forever.
pub proof fn lemma_always_firing_never_stable(
    nodes: Seq<PlanNode>,
    root: int,
    b: HepBatch,
    q: int,
)
    requires
        crate::graph::nodes_ok(nodes),
        crate::graph::live(nodes, root),
        0 <= q < b.rules@.len(),
        b.rules@[q].pattern.predicate is Always,
        b.rules@[q].pattern.children is Unconstrained,
    ensures
        !no_rule_matches(nodes, root, b),
{
    crate::graph::lemma_subtree_live(nodes, root);
    let order = scan_order(nodes, root, b);
    let j: int = if b.match_order is TopDown {
        0
    } else {
        order.len() - 1
    };
    assert(0 <= j < order.len());
    assert(order[j] == root);
    assert(pattern_matches(nodes, b.rules@[q].pattern, root));
    if no_rule_matches(nodes, root, b) {
        assert(!pattern_matches(nodes, (b.rules@[q]).pattern, order[j]));
        assert(false);
    }
}

/// One scanning pass: visits the snapshot of the graph in the batch's match
/// order and applies the first rule that matches, then stops so that the
/// caller re-scans the mutated graph. Returns whether a rule fired.
fn scan_once(graph: &mut HepGraph, batch: &HepBatch) -> (changed: bool)
    requires
        old(graph).wf(),
    ensures
        final(graph).wf(),
        !changed ==> *final(graph) == *old(graph) && no_rule_matches(
            old(graph).nodes@,
            old(graph).root_id(),
            *batch,
        ),
        changed ==> scan_step(*old(graph), *final(graph), *batch),
{
    let ids = graph.nodes_iter(batch.match_order, Option::None);
    let n = ids.len();
    let nrules = batch.rules.len();
    let ghost order = scan_order(graph.nodes@, graph.root_id(), *batch);
    let mut j: usize = 0;
    while j < n
        invariant
            graph.wf(),
            *graph == *old(graph),
            order == scan_order(graph.nodes@, graph.root_id(), *batch),
            crate::graph::ids_are(ids@, order),
            forall|m: int|
                0 <= m < ids@.len() ==> crate::graph::live(graph.nodes@, (#[trigger] ids@[m]).0 as int),
            n == ids@.len(),
            nrules == batch.rules@.len(),
            0 <= j <= n,
            forall|j2: int, q2: int|
                0 <= j2 < j && 0 <= q2 < nrules ==> !pattern_matches(
                    graph.nodes@,
                    (#[trigger] batch.rules@[q2]).pattern,
                    #[trigger] order[j2],
                ),
        decreases n - j,
    {
        let mut q: usize = 0;
        while q < nrules
            invariant
                graph.wf(),
                *graph == *old(graph),
                order == scan_order(graph.nodes@, graph.root_id(), *batch),
                crate::graph::ids_are(ids@, order),
                forall|m: int|
                    0 <= m < ids@.len() ==> crate::graph::live(
                        graph.nodes@,
                        (#[trigger] ids@[m]).0 as int,
                    ),
                n == ids@.len(),
                nrules == batch.rules@.len(),
                0 <= j < n,
                0 <= q <= nrules,
                forall|j2: int, q2: int|
                    0 <= j2 < j && 0 <= q2 < nrules ==> !pattern_matches(
                        graph.nodes@,
                        (#[trigger] batch.rules@[q2]).pattern,
                        #[trigger] order[j2],
                    ),
                forall|q2: int|
                    0 <= q2 < q ==> !pattern_matches(
                        graph.nodes@,
                        (#[trigger] batch.rules@[q2]).pattern,
                        order[j as int],
                    ),
            decreases nrules - q,
        {
            let at = ids[j];
            let matcher = HepMatcher::new(&batch.rules[q].pattern, at, &*graph);
            if matcher.match_opt_expr() {
                let ghost g1 = *graph;
                proof {
                    assert(at.0 as int == order[j as int]);
                    assert(first_firing(g1.nodes@, g1.root_id(), *batch, j as int, q as int));
                }
                match &batch.rules[q].action {
                    RewriteAction::ReplaceWith(p) => {
                        graph.replace_node(at, p);
                        proof {
                            assert(action_applied(
                                g1.nodes@,
                                g1.root_id(),
                                graph.nodes@,
                                graph.root_id(),
                                at.0 as int,
                                batch.rules@[q as int].action,
                            ));
                        }
                    },
                    RewriteAction::WrapWith(op) => {
                        let sub = graph.to_plan_at(at);
                        let wrapped = LogicalPlan { operator: *op, childrens: vec![sub] };
                        graph.replace_node(at, &wrapped);
                        proof {
                            assert(replaced(
                                g1.nodes@,
                                g1.root_id(),
                                graph.nodes@,
                                graph.root_id(),
                                at.0 as int,
                                wrapped,
                            ));
                            assert(wrapped.childrens@.len() == 1);
                            assert(plan_in(g1.nodes@, at.0 as int, wrapped.childrens@[0]));
                            assert(action_applied(
                                g1.nodes@,
                                g1.root_id(),
                                graph.nodes@,
                                graph.root_id(),
                                at.0 as int,
                                batch.rules@[q as int].action,
                            ));
                        }
                    },
                }
                proof {
                    assert(scan_order(g1.nodes@, g1.root_id(), *batch)[j as int] == at.0 as int);
                    assert(scan_step(g1, *graph, *batch));
                }
                return true;
            }
            q += 1;
        }
        j += 1;
    }
    false
}

impl HepBatch {
    /// Drives this batch to its terminal state on the graph: scan, apply the
    /// first match, re-scan, until a full scan fires no rule (`Stable`) or
    /// as many rewriting passes as `max_iterations` have run
    /// (`CapExceeded`). Returns the terminal state and the number of passes
    /// that applied a rewrite.
    ///
    /// A graph already at a fixed point of the batch is returned unchanged,
    /// `Stable` after the one scan that detected it. The cap turns a
    /// non-confluent rule set into a reported condition: the run never loops
    /// beyond `max_iterations` rewriting passes, and `CapExceeded` is
    /// reported exactly when that many passes ran.
    pub fn run(&self, graph: &mut HepGraph) -> (r: (BatchOutcome, usize))
        requires
            old(graph).wf(),
            self.max_iterations >= 1,
        ensures
            final(graph).wf(),
            r.0 == BatchOutcome::Stable ==> no_rule_matches(
                final(graph).nodes@,
                final(graph).root_id(),
                *self,
            ),
            no_rule_matches(old(graph).nodes@, old(graph).root_id(), *self) ==> r.0
                == BatchOutcome::Stable && r.1 == 0,
            r.1 == 0 ==> *final(graph) == *old(graph),
            r.0 == BatchOutcome::CapExceeded ==> r.1 == self.max_iterations,
            r.1 <= self.max_iterations,
            steps_to(*old(graph), *final(graph), *self, r.1 as nat),
    {
        let mut passes: usize = 0;
        loop
            invariant
                graph.wf(),
                self.max_iterations >= 1,
                0 <= passes < self.max_iterations,
                passes == 0 ==> *graph == *old(graph),
                passes > 0 ==> !no_rule_matches(
                    old(graph).nodes@,
                    old(graph).root_id(),
                    *self,
                ),
                steps_to(*old(graph), *graph, *self, passes as nat),
            decreases self.max_iterations - passes,
        {
            let ghost g1 = *graph;
            let changed = scan_once(graph, self);
            if !changed {
                return (BatchOutcome::Stable, passes);
            }
            proof {
                let (j, q) = choose|j: int, q: int|
                    #[trigger] first_firing(g1.nodes@, g1.root_id(), *self, j, q)
                        && action_applied(
                        g1.nodes@,
                        g1.root_id(),
                        graph.nodes@,
                        graph.root_id(),
                        scan_order(g1.nodes@, g1.root_id(), *self)[j],
                        self.rules@[q].action,
                    );
                if passes == 0 {
                    assert(first_firing(
                        old(graph).nodes@,
                        old(graph).root_id(),
                        *self,
                        j,
                        q,
                    ));
                }
                assert(!no_rule_matches(old(graph).nodes@, old(graph).root_id(), *self));
                assert(steps_to(*old(graph), g1, *self, passes as nat) && scan_step(
                    g1,
                    *graph,
                    *self,
                ));
                assert(steps_to(*old(graph), *graph, *self, (passes + 1) as nat));
            }
            passes = passes + 1;
            if passes >= self.max_iterations {
                return (BatchOutcome::CapExceeded, passes);
            }
        }
    }
}

/// One batch drove `g1` to `g2` with terminal state `o`, exactly as
/// [`HepBatch::run`] promises: `g2` is reached by some number of scheduling
/// steps within the cap; `Stable` means `g2` is a fixed point of the batch;
/// `CapExceeded` means exactly `max_iterations` steps ran; a `g1` already at
/// a fixed point is left unchanged and reported `Stable`.
pub open spec fn batch_ran(g1: HepGraph, b: HepBatch, o: BatchOutcome, g2: HepGraph) -> bool {
    &&& g2.wf()
    &&& exists|p: nat|
        {
            &&& #[trigger] steps_to(g1, g2, b, p)
            &&& p <= b.max_iterations
            &&& (o == BatchOutcome::Stable ==> no_rule_matches(g2.nodes@, g2.root_id(), b))
            &&& (o == BatchOutcome::CapExceeded ==> p == b.max_iterations)
            &&& (p == 0 ==> g2 == g1)
            &&& (no_rule_matches(g1.nodes@, g1.root_id(), b) ==> o == BatchOutcome::Stable && p
                == 0)
        }
}

/// The whole scheduling pass: the batches drove `g1` to `g2` one after the
/// other, in order, each batch relating its input graph to its output graph
/// and its reported outcome as [`batch_ran`] says.
pub open spec fn ran_all(
    g1: HepGraph,
    batches: Seq<HepBatch>,
    outcomes: Seq<BatchOutcome>,
    g2: HepGraph,
) -> bool
    decreases batches.len(),
{
    &&& outcomes.len() == batches.len()
    &&& if batches.len() == 0 {
        g2 == g1
    } else {
        exists|mid: HepGraph|
            ran_all(g1, batches.drop_last(), outcomes.drop_last(), mid) && #[trigger] batch_ran(
                mid,
                batches.last(),
                outcomes.last(),
                g2,
            )
    }
}

/// The batch scheduler: owns the plan graph for one optimization pass and
/// the ordered batches it drives over it.
pub struct HepOptimizer {
    pub graph: HepGraph,
    pub batches: Vec<HepBatch>,
}

impl HepOptimizer {
    /// Wraps the plan into a fresh graph with no batches registered yet.
    pub fn new(plan: LogicalPlan) -> (s: Self)
        ensures
            s.graph.wf(),
            s.graph.root_id() == 0,
            plan_in(s.graph.nodes@, 0, plan),
            s.batches@.len() == 0,
    {
        HepOptimizer { graph: HepGraph::new(plan), batches: Vec::new() }
    }

    /// Registers one more batch, after those already registered.
    pub fn batch(self, b: HepBatch) -> (s: Self)
        ensures
            s.graph == self.graph,
            s.batches@ == self.batches@.push(b),
    {
        let mut s = self;
        s.batches.push(b);
        s
    }

    /// Runs every batch in registration order and reports each terminal
    /// state: the final graph is reached from the initial one by the
    /// batches' own scheduling steps, one batch after the other, each
    /// batch's outcome meaning what [`batch_ran`] says of its leg. When the
    /// last batch ends `Stable`, the final graph is at a fixed point of
    /// that batch.
    pub fn find_best(&mut self) -> (outcomes: Vec<BatchOutcome>)
        requires
            old(self).graph.wf(),
            forall|k: int|
                0 <= k < old(self).batches@.len() ==> (#[trigger] old(
                    self,
                ).batches@[k]).max_iterations >= 1,
        ensures
            final(self).graph.wf(),
            final(self).batches == old(self).batches,
            outcomes@.len() == old(self).batches@.len(),
            ran_all(old(self).graph, old(self).batches@, outcomes@, final(self).graph),
            (outcomes@.len() > 0 && outcomes@[outcomes@.len() - 1] == BatchOutcome::Stable)
                ==> no_rule_matches(
                final(self).graph.nodes@,
                final(self).graph.root_id(),
                old(self).batches@[outcomes@.len() - 1],
            ),
    {
        let mut outcomes: Vec<BatchOutcome> = Vec::new();
        let n = self.batches.len();
        let mut k: usize = 0;
        proof {
            assert(old(self).batches@.subrange(0, 0).len() == 0);
            assert(ran_all(old(self).graph, old(self).batches@.subrange(0, 0), outcomes@, self.graph));
        }
        while k < n
            invariant
                self.graph.wf(),
                self.batches == old(self).batches,
                forall|m: int|
                    0 <= m < old(self).batches@.len() ==> (#[trigger] old(
                        self,
                    ).batches@[m]).max_iterations >= 1,
                n == self.batches@.len(),
                0 <= k <= n,
                outcomes@.len() == k,
                ran_all(
                    old(self).graph,
                    old(self).batches@.subrange(0, k as int),
                    outcomes@,
                    self.graph,
                ),
                (k > 0 && outcomes@[k - 1] == BatchOutcome::Stable) ==> no_rule_matches(
                    self.graph.nodes@,
                    self.graph.root_id(),
                    self.batches@[k - 1],
                ),
            decreases n - k,
        {
            let ghost g_pre = self.graph;
            let ghost done = outcomes@;
            let r = self.batches[k].run(&mut self.graph);
            outcomes.push(r.0);
            proof {
                assert(steps_to(g_pre, self.graph, self.batches@[k as int], r.1 as nat));
                assert(batch_ran(g_pre, self.batches@[k as int], r.0, self.graph));
                let bs = old(self).batches@.subrange(0, k as int + 1);
                assert(bs.drop_last() =~= old(self).batches@.subrange(0, k as int));
                assert(outcomes@.drop_last() =~= done);
                assert(bs.last() == old(self).batches@[k as int]);
                assert(outcomes@.last() == r.0);
                assert(batch_ran(g_pre, bs.last(), outcomes@.last(), self.graph));
                assert(ran_all(old(self).graph, bs, outcomes@, self.graph));
            }
            k += 1;
        }
        proof {
            assert(old(self).batches@.subrange(0, n as int) =~= old(self).batches@);
        }
        outcomes
    }
}

} // verus!
