use vstd::prelude::*;

use crate::batch::HepMatchOrder;
use crate::operator::Operator;
use crate::plan::{plan_equiv, plan_size, sizes_to, LogicalPlan};

verus! {

/// Identifier of a node slot within one [`HepGraph`].
///
/// An identifier is only meaningful for the graph that issued it.
#[derive(Clone, Copy, PartialEq, Eq, Structural, Debug, Hash)]
pub struct HepNodeId(pub usize);

impl HepNodeId {
    /// Builds an identifier from a raw slot index.
    pub fn new(index: usize) -> (id: HepNodeId)
        ensures
            id.0 == index,
    {
        HepNodeId(index)
    }
}

/// Structural faults of graph operations.
#[derive(Clone, Copy, PartialEq, Eq, Structural, Debug)]
pub enum HepError {
    /// An identifier does not resolve in this graph.
    NodeNotFound,
}

/// One slot of the plan graph: an operator and its ordered children edges.
pub struct PlanNode {
    pub operator: Operator,
    pub children: Vec<HepNodeId>,
}

/// Whether slot `i` exists in the node store.
pub open spec fn live(nodes: Seq<PlanNode>, i: int) -> bool {
    0 <= i < nodes.len()
}

/// The operator stored at slot `i`.
pub open spec fn op_at(nodes: Seq<PlanNode>, i: int) -> Operator {
    nodes[i].operator
}

/// The ordered children edges of slot `i`.
pub open spec fn kids(nodes: Seq<PlanNode>, i: int) -> Seq<HepNodeId> {
    nodes[i].children@
}

/// The slot index of the `k`-th child of slot `i`.
pub open spec fn kid(nodes: Seq<PlanNode>, i: int, k: int) -> int {
    kids(nodes, i)[k].0 as int
}

/// Every child edge of slot `i` points to a strictly larger live slot.
///
/// Child indices grow strictly along every edge, so the graph is acyclic and
/// every identifier referenced as a child resolves.
pub open spec fn node_ok(nodes: Seq<PlanNode>, i: int) -> bool {
    forall|k: int| 0 <= k < kids(nodes, i).len() ==> i < #[trigger] kid(nodes, i, k) < nodes.len()
}

/// Structural consistency of the whole node store.
pub open spec fn nodes_ok(nodes: Seq<PlanNode>) -> bool {
    forall|i: int| 0 <= i < nodes.len() ==> #[trigger] node_ok(nodes, i)
}

/// Slot indices of the subtree rooted at `i`, parents before children
/// (pre-order, children in edge order).
pub open spec fn subtree_seq(nodes: Seq<PlanNode>, i: int) -> Seq<int>
    decreases nodes.len() - i, 1int, 0int,
{
    if 0 <= i < nodes.len() {
        seq![i] + kids_pre(nodes, i, kids(nodes, i).len() as int)
    } else {
        seq![i]
    }
}

/// Concatenated subtrees of the first `k` children of slot `i`.
pub open spec fn kids_pre(nodes: Seq<PlanNode>, i: int, k: int) -> Seq<int>
    decreases nodes.len() - i, 0int, k,
{
    if k <= 0 {
        Seq::empty()
    } else {
        let c = kid(nodes, i, k - 1);
        kids_pre(nodes, i, k - 1) + if i < c < nodes.len() {
            subtree_seq(nodes, c)
        } else {
            seq![c]
        }
    }
}

/// `s` read back to front.
pub open spec fn reversed(s: Seq<int>) -> Seq<int> {
    Seq::new(s.len(), |j: int| s[s.len() - 1 - j])
}

/// The subtree of `i` in the declared traversal order.
pub open spec fn order_seq(nodes: Seq<PlanNode>, order: HepMatchOrder, i: int) -> Seq<int> {
    match order {
        HepMatchOrder::TopDown => subtree_seq(nodes, i),
        HepMatchOrder::BottomUp => reversed(subtree_seq(nodes, i)),
    }
}

/// The identifiers `ids` list exactly the slot indices `s`.
pub open spec fn ids_are(ids: Seq<HepNodeId>, s: Seq<int>) -> bool {
    &&& ids.len() == s.len()
    &&& forall|j: int| 0 <= j < ids.len() ==> (#[trigger] ids[j]).0 as int == s[j]
}

/// The subtree rooted at slot `i` materializes exactly the plan tree `p`.
pub open spec fn plan_in(nodes: Seq<PlanNode>, i: int, p: LogicalPlan) -> bool
    decreases p,
{
    &&& live(nodes, i)
    &&& op_at(nodes, i) == p.operator
    &&& kids(nodes, i).len() == p.childrens@.len()
    &&& forall|k: int|
        0 <= k < p.childrens@.len() ==> plan_in(nodes, kid(nodes, i, k), #[trigger] p.childrens@[k])
}

/// Every slot listed by a subtree scan of a consistent store is live.
pub proof fn lemma_subtree_live(nodes: Seq<PlanNode>, i: int)
    requires
        nodes_ok(nodes),
        live(nodes, i),
    ensures
        subtree_seq(nodes, i).len() >= 1,
        subtree_seq(nodes, i)[0] == i,
        forall|j: int|
            0 <= j < subtree_seq(nodes, i).len() ==> live(
                nodes,
                #[trigger] subtree_seq(nodes, i)[j],
            ),
    decreases nodes.len() - i, 1int, 0int,
{
    lemma_kids_pre_live(nodes, i, kids(nodes, i).len() as int);
    let pre = kids_pre(nodes, i, kids(nodes, i).len() as int);
    assert(subtree_seq(nodes, i) == seq![i] + pre);
    assert forall|j: int| 0 <= j < subtree_seq(nodes, i).len() implies live(
        nodes,
        #[trigger] subtree_seq(nodes, i)[j],
    ) by {
        if j == 0 {
            assert(subtree_seq(nodes, i)[j] == i);
        } else {
            assert(subtree_seq(nodes, i)[j] == pre[j - 1]);
        }
    }
}

proof fn lemma_kids_pre_live(nodes: Seq<PlanNode>, i: int, k: int)
    requires
        nodes_ok(nodes),
        live(nodes, i),
        0 <= k <= kids(nodes, i).len(),
    ensures
        forall|j: int|
            0 <= j < kids_pre(nodes, i, k).len() ==> live(
                nodes,
                #[trigger] kids_pre(nodes, i, k)[j],
            ),
    decreases nodes.len() - i, 0int, k,
{
    if k > 0 {
        lemma_kids_pre_live(nodes, i, k - 1);
        let c = kid(nodes, i, k - 1);
        assert(node_ok(nodes, i));
        assert(i < c < nodes.len());
        lemma_subtree_live(nodes, c);
        let pre = kids_pre(nodes, i, k - 1);
        let sub = subtree_seq(nodes, c);
        assert(kids_pre(nodes, i, k) == pre + sub);
        assert forall|j: int| 0 <= j < kids_pre(nodes, i, k).len() implies live(
            nodes,
            #[trigger] kids_pre(nodes, i, k)[j],
        ) by {
            if j < pre.len() {
                assert(kids_pre(nodes, i, k)[j] == pre[j]);
            } else {
                assert(kids_pre(nodes, i, k)[j] == sub[j - pre.len()]);
            }
        }
    }
}

/// A materialized plan stays materialized when the store grows at the end.
pub proof fn lemma_plan_in_extend(n1: Seq<PlanNode>, n2: Seq<PlanNode>, i: int, p: LogicalPlan)
    requires
        n1.len() <= n2.len(),
        forall|t: int| 0 <= t < n1.len() ==> n2[t] == n1[t],
        plan_in(n1, i, p),
    ensures
        plan_in(n2, i, p),
    decreases p,
{
    assert forall|k: int| 0 <= k < p.childrens@.len() implies plan_in(
        n2,
        kid(n2, i, k),
        #[trigger] p.childrens@[k],
    ) by {
        lemma_plan_in_extend(n1, n2, kid(n1, i, k), p.childrens@[k]);
    }
}

/// A plan materialized at a slot of the consistent tail region `lo..` stays
/// materialized when slots below `lo` change.
pub proof fn lemma_plan_in_update_low(
    n1: Seq<PlanNode>,
    n2: Seq<PlanNode>,
    lo: int,
    i: int,
    p: LogicalPlan,
)
    requires
        n1.len() == n2.len(),
        forall|t: int| lo <= t < n1.len() ==> n2[t] == n1[t],
        forall|t: int| lo <= t < n1.len() ==> #[trigger] node_ok(n1, t),
        lo <= i,
        plan_in(n1, i, p),
    ensures
        plan_in(n2, i, p),
    decreases p,
{
    assert(node_ok(n1, i));
    assert forall|k: int| 0 <= k < p.childrens@.len() implies plan_in(
        n2,
        kid(n2, i, k),
        #[trigger] p.childrens@[k],
    ) by {
        assert(i < kid(n1, i, k) < n1.len());
        lemma_plan_in_update_low(n1, n2, lo, kid(n1, i, k), p.childrens@[k]);
    }
}

/// Materialization is deterministic: two plan trees read back from the same
/// slot of the same store are structurally identical (same operators, same
/// child order). With [`HepGraph::new`] and [`HepGraph::to_plan`] this is the
/// round trip: wrapping a plan into a fresh graph and materializing it again
/// yields an observably identical plan when no rule has fired.
pub proof fn lemma_materialize_round_trip(
    nodes: Seq<PlanNode>,
    i: int,
    p: LogicalPlan,
    q: LogicalPlan,
)
    requires
        plan_in(nodes, i, p),
        plan_in(nodes, i, q),
    ensures
        plan_equiv(p, q),
    decreases p,
{
    assert forall|k: int| 0 <= k < p.childrens@.len() implies plan_equiv(
        #[trigger] p.childrens@[k],
        q.childrens@[k],
    ) by {
        lemma_materialize_round_trip(nodes, kid(nodes, i, k), p.childrens@[k], q.childrens@[k]);
    }
}

/// The store relation of a subtree replacement: `newn` is `oldn` with the
/// plan `p` freshly appended and every edge into `at` re-pointed at the
/// fresh subtree's root, `oldn.len()`. The root moves the same way. Slots of
/// the replaced subtree stay stored; they are merely no longer referenced.
pub open spec fn replaced(
    oldn: Seq<PlanNode>,
    old_root: int,
    newn: Seq<PlanNode>,
    new_root: int,
    at: int,
    p: LogicalPlan,
) -> bool {
    &&& newn.len() == oldn.len() + plan_size(p)
    &&& forall|t: int| 0 <= t < oldn.len() ==> op_at(newn, t) == op_at(oldn, t)
    &&& forall|t: int| 0 <= t < oldn.len() ==> kids(newn, t).len() == kids(oldn, t).len()
    &&& forall|t: int, k: int|
        0 <= t < oldn.len() && 0 <= k < kids(oldn, t).len() ==> #[trigger] kid(newn, t, k) == (
        if kid(oldn, t, k) == at {
            oldn.len() as int
        } else {
            kid(oldn, t, k)
        })
    &&& plan_in(newn, oldn.len() as int, p)
    &&& forall|t: int| oldn.len() <= t < newn.len() ==> #[trigger] node_ok(newn, t)
    &&& new_root == (if old_root == at {
        oldn.len() as int
    } else {
        old_root
    })
}

/// The mutable plan graph: the single owner of all node slots, plus the
/// identifier of the current root.
///
/// Slots are never deleted; a replaced subtree merely becomes unreferenced.
/// This keeps every issued identifier resolvable, which is the safe choice
/// when a subtree is shared by several parents.
pub struct HepGraph {
    pub nodes: Vec<PlanNode>,
    pub root: HepNodeId,
}

/// Appends the plan as fresh slots in pre-order and returns the slot of its
/// root. Existing slots are untouched.
fn insert_plan(nodes: &mut Vec<PlanNode>, plan: &LogicalPlan) -> (root: usize)
    ensures
        root == old(nodes)@.len(),
        final(nodes)@.len() == old(nodes)@.len() + plan_size(*plan),
        forall|t: int| 0 <= t < old(nodes)@.len() ==> final(nodes)@[t] == old(nodes)@[t],
        plan_in(final(nodes)@, root as int, *plan),
        forall|t: int|
            old(nodes)@.len() <= t < final(nodes)@.len() ==> #[trigger] node_ok(final(nodes)@, t),
    decreases *plan,
{
    let id = nodes.len();
    nodes.push(PlanNode { operator: plan.operator, children: Vec::new() });
    let n = plan.childrens.len();
    let mut child_ids: Vec<HepNodeId> = Vec::new();
    let mut k: usize = 0;
    while k < n
        invariant
            n == plan.childrens@.len(),
            0 <= k <= n,
            id == old(nodes)@.len(),
            nodes@.len() == id + 1 + sizes_to(plan.childrens@, k as int),
            forall|t: int| 0 <= t < id ==> nodes@[t] == old(nodes)@[t],
            nodes@[id as int].operator == plan.operator,
            nodes@[id as int].children@.len() == 0,
            child_ids@.len() == k,
            forall|j: int| 0 <= j < k ==> id < (#[trigger] child_ids@[j]).0 < nodes@.len(),
            forall|j: int|
                0 <= j < k ==> plan_in(
                    nodes@,
                    (#[trigger] child_ids@[j]).0 as int,
                    plan.childrens@[j],
                ),
            forall|t: int| id < t < nodes@.len() ==> #[trigger] node_ok(nodes@, t),
        decreases n - k,
    {
        let ghost pre = nodes@;
        let c = insert_plan(nodes, &plan.childrens[k]);
        child_ids.push(HepNodeId(c));
        proof {
            assert forall|j: int| 0 <= j < k + 1 implies plan_in(
                nodes@,
                (#[trigger] child_ids@[j]).0 as int,
                plan.childrens@[j],
            ) by {
                if j < k {
                    lemma_plan_in_extend(
                        pre,
                        nodes@,
                        child_ids@[j].0 as int,
                        plan.childrens@[j],
                    );
                }
            }
            assert forall|t: int| id < t < nodes@.len() implies #[trigger] node_ok(nodes@, t) by {
                if t < pre.len() {
                    assert(node_ok(pre, t));
                    assert forall|m: int| 0 <= m < kids(nodes@, t).len() implies t
                        < #[trigger] kid(nodes@, t, m) < nodes@.len() by {
                        assert(kid(nodes@, t, m) == kid(pre, t, m));
                        assert(t < kid(pre, t, m) < pre.len());
                    }
                }
            }
        }
        k += 1;
    }
    let op = plan.operator;
    let ghost before_set = nodes@;
    nodes.set(id, PlanNode { operator: op, children: child_ids });
    proof {
        assert forall|j: int| 0 <= j < n implies plan_in(
            nodes@,
            kid(nodes@, id as int, j),
            #[trigger] plan.childrens@[j],
        ) by {
            assert(kid(nodes@, id as int, j) == child_ids@[j].0 as int);
            lemma_plan_in_update_low(
                before_set,
                nodes@,
                id as int + 1,
                child_ids@[j].0 as int,
                plan.childrens@[j],
            );
        }
        assert forall|t: int| id <= t < nodes@.len() implies #[trigger] node_ok(nodes@, t) by {
            if t == id {
                assert forall|m: int| 0 <= m < kids(nodes@, t).len() implies t < #[trigger] kid(
                    nodes@,
                    t,
                    m,
                ) < nodes@.len() by {
                    assert(kid(nodes@, t, m) == child_ids@[m].0 as int);
                }
            } else {
                assert(node_ok(before_set, t));
                assert forall|m: int| 0 <= m < kids(nodes@, t).len() implies t < #[trigger] kid(
                    nodes@,
                    t,
                    m,
                ) < nodes@.len() by {
                    assert(kid(nodes@, t, m) == kid(before_set, t, m));
                }
            }
        }
    }
    id
}

impl HepGraph {
    /// The slot index of the current root.
    pub open spec fn root_id(self) -> int {
        self.root.0 as int
    }

    /// Graph consistency: the root is live and every child edge points to a
    /// strictly larger live slot.
    pub open spec fn wf(self) -> bool {
        &&& nodes_ok(self.nodes@)
        &&& live(self.nodes@, self.root_id())
    }

    /// The slot index a scan starts from: `start` if given, else the root.
    pub open spec fn start_of(self, start: Option<HepNodeId>) -> int {
        match start {
            Option::Some(s) => s.0 as int,
            Option::None => self.root_id(),
        }
    }

    /// Wraps a plan tree into a fresh graph, assigning identifiers in
    /// pre-order; the root gets identifier 0.
    pub fn new(plan: LogicalPlan) -> (g: HepGraph)
        ensures
            g.wf(),
            g.root_id() == 0,
            g.nodes@.len() == plan_size(plan),
            plan_in(g.nodes@, 0, plan),
    {
        let mut nodes: Vec<PlanNode> = Vec::new();
        let r = insert_plan(&mut nodes, &plan);
        HepGraph { nodes, root: HepNodeId(r) }
    }

    /// The number of node slots the graph holds.
    pub fn node_count(&self) -> (n: usize)
        ensures
            n == self.nodes@.len(),
    {
        self.nodes.len()
    }

    /// The identifier of the current root.
    pub fn root(&self) -> (r: HepNodeId)
        ensures
            r == self.root,
    {
        self.root
    }

    /// Makes `id` the root, for whole-plan replacement.
    pub fn set_root(&mut self, id: HepNodeId)
        requires
            live(old(self).nodes@, id.0 as int),
        ensures
            final(self).nodes == old(self).nodes,
            final(self).root == id,
    {
        self.root = id;
    }

    /// The operator stored at `id`; `NodeNotFound` for an identifier this
    /// graph never issued.
    pub fn operator(&self, id: HepNodeId) -> (r: Result<&Operator, HepError>)
        ensures
            (match r {
                Result::Ok(op) => live(self.nodes@, id.0 as int) && *op == op_at(
                    self.nodes@,
                    id.0 as int,
                ),
                Result::Err(e) => !live(self.nodes@, id.0 as int) && e == HepError::NodeNotFound,
            }),
    {
        if id.0 < self.nodes.len() {
            Result::Ok(&self.nodes[id.0].operator)
        } else {
            Result::Err(HepError::NodeNotFound)
        }
    }

    /// The direct children of `id` in positional order; `NodeNotFound` for
    /// an identifier this graph never issued.
    pub fn children_at(&self, id: HepNodeId) -> (r: Result<&Vec<HepNodeId>, HepError>)
        ensures
            (match r {
                Result::Ok(c) => live(self.nodes@, id.0 as int) && c@ == kids(
                    self.nodes@,
                    id.0 as int,
                ),
                Result::Err(e) => !live(self.nodes@, id.0 as int) && e == HepError::NodeNotFound,
            }),
    {
        if id.0 < self.nodes.len() {
            Result::Ok(&self.nodes[id.0].children)
        } else {
            Result::Err(HepError::NodeNotFound)
        }
    }

    /// The operator at a slot known to be live.
    pub(crate) fn op_ref(&self, id: HepNodeId) -> (r: &Operator)
        requires
            live(self.nodes@, id.0 as int),
        ensures
            *r == op_at(self.nodes@, id.0 as int),
    {
        &self.nodes[id.0].operator
    }

    /// The children of a slot known to be live.
    pub(crate) fn kids_ref(&self, id: HepNodeId) -> (r: &Vec<HepNodeId>)
        requires
            live(self.nodes@, id.0 as int),
        ensures
            r@ == kids(self.nodes@, id.0 as int),
    {
        &self.nodes[id.0].children
    }

    /// The subtree below `id` in pre-order, as a fresh snapshot of
    /// identifiers.
    fn subtree_vec(&self, id: HepNodeId) -> (r: Vec<HepNodeId>)
        requires
            self.wf(),
            live(self.nodes@, id.0 as int),
        ensures
            ids_are(r@, subtree_seq(self.nodes@, id.0 as int)),
            forall|j: int| 0 <= j < r@.len() ==> live(self.nodes@, (#[trigger] r@[j]).0 as int),
        decreases self.nodes@.len() - id.0,
    {
        let i = id.0;
        let mut out: Vec<HepNodeId> = Vec::new();
        out.push(id);
        let n = self.nodes[i].children.len();
        let mut k: usize = 0;
        while k < n
            invariant
                self.wf(),
                live(self.nodes@, i as int),
                i == id.0,
                n == kids(self.nodes@, i as int).len(),
                0 <= k <= n,
                ids_are(out@, seq![i as int] + kids_pre(self.nodes@, i as int, k as int)),
                forall|j: int|
                    0 <= j < out@.len() ==> live(self.nodes@, (#[trigger] out@[j]).0 as int),
            decreases n - k,
        {
            let c = self.nodes[i].children[k];
            proof {
                assert(node_ok(self.nodes@, i as int));
                assert((i as int) < kid(self.nodes@, i as int, k as int) < self.nodes@.len());
            }
            let mut sub = self.subtree_vec(c);
            out.append(&mut sub);
            k += 1;
            proof {
                assert(kids_pre(self.nodes@, i as int, k as int) == kids_pre(
                    self.nodes@,
                    i as int,
                    k as int - 1,
                ) + subtree_seq(self.nodes@, c.0 as int));
            }
        }
        out
    }

    /// A fresh, finite snapshot of the identifiers of the subtree rooted at
    /// `start` (the whole plan when `start` is `None`), in the given
    /// traversal order. Later graph mutations do not touch the snapshot.
    pub fn nodes_iter(&self, order: HepMatchOrder, start: Option<HepNodeId>) -> (r: Vec<HepNodeId>)
        requires
            self.wf(),
            (match start {
                Option::Some(s) => live(self.nodes@, s.0 as int),
                Option::None => true,
            }),
        ensures
            ids_are(r@, order_seq(self.nodes@, order, self.start_of(start))),
            forall|j: int| 0 <= j < r@.len() ==> live(self.nodes@, (#[trigger] r@[j]).0 as int),
    {
        let s = match start {
            Option::Some(x) => x,
            Option::None => self.root,
        };
        let fwd = self.subtree_vec(s);
        match order {
            HepMatchOrder::TopDown => fwd,
            HepMatchOrder::BottomUp => {
                let mut rev: Vec<HepNodeId> = Vec::new();
                let mut j: usize = fwd.len();
                while j > 0
                    invariant
                        j <= fwd@.len(),
                        rev@.len() == fwd@.len() - j,
                        forall|m: int|
                            0 <= m < rev@.len() ==> #[trigger] rev@[m] == fwd@[fwd@.len() - 1 - m],
                        forall|m: int|
                            0 <= m < fwd@.len() ==> live(
                                self.nodes@,
                                (#[trigger] fwd@[m]).0 as int,
                            ),
                        ids_are(fwd@, subtree_seq(self.nodes@, s.0 as int)),
                    decreases j,
                {
                    j -= 1;
                    rev.push(fwd[j]);
                }
                rev
            },
        }
    }

    /// Materializes the subtree rooted at `id` back into a plan tree.
    pub fn to_plan_at(&self, id: HepNodeId) -> (r: LogicalPlan)
        requires
            self.wf(),
            live(self.nodes@, id.0 as int),
        ensures
            plan_in(self.nodes@, id.0 as int, r),
        decreases self.nodes@.len() - id.0,
    {
        let i = id.0;
        let op = self.nodes[i].operator;
        let n = self.nodes[i].children.len();
        let mut childs: Vec<LogicalPlan> = Vec::new();
        let mut k: usize = 0;
        while k < n
            invariant
                self.wf(),
                live(self.nodes@, i as int),
                i == id.0,
                op == op_at(self.nodes@, i as int),
                n == kids(self.nodes@, i as int).len(),
                0 <= k <= n,
                childs@.len() == k,
                forall|j: int|
                    0 <= j < k ==> plan_in(
                        self.nodes@,
                        kid(self.nodes@, i as int, j),
                        #[trigger] childs@[j],
                    ),
            decreases n - k,
        {
            let c = self.nodes[i].children[k];
            proof {
                assert(node_ok(self.nodes@, i as int));
                assert((i as int) < kid(self.nodes@, i as int, k as int) < self.nodes@.len());
            }
            let sub = self.to_plan_at(c);
            childs.push(sub);
            k += 1;
        }
        LogicalPlan { operator: op, childrens: childs }
    }

    /// Materializes the whole plan, walking from the root.
    pub fn to_plan(&self) -> (r: LogicalPlan)
        requires
            self.wf(),
        ensures
            plan_in(self.nodes@, self.root_id(), r),
    {
        self.to_plan_at(self.root)
    }

    /// Swaps the subtree rooted at `id` for a freshly inserted copy of
    /// `new_subplan`, re-pointing every edge into `id` (and the root, if `id`
    /// was the root) at the fresh subtree. The replaced slots stay stored but
    /// become unreferenced.
    pub fn replace_node(&mut self, id: HepNodeId, new_subplan: &LogicalPlan)
        requires
            old(self).wf(),
            live(old(self).nodes@, id.0 as int),
        ensures
            final(self).wf(),
            replaced(
                old(self).nodes@,
                old(self).root_id(),
                final(self).nodes@,
                final(self).root_id(),
                id.0 as int,
                *new_subplan,
            ),
    {
        let ghost oldn = self.nodes@;
        let old_len = self.nodes.len();
        let new_root = insert_plan(&mut self.nodes, new_subplan);
        let mut i: usize = 0;
        while i < old_len
            invariant
                old_len == oldn.len(),
                id.0 < old_len,
                0 <= i <= old_len,
                new_root == old_len,
                self.nodes@.len() == oldn.len() + plan_size(*new_subplan),
                self.root == old(self).root,
                forall|t: int| i <= t < old_len ==> self.nodes@[t] == oldn[t],
                forall|t: int|
                    old_len <= t < self.nodes@.len() ==> #[trigger] node_ok(self.nodes@, t),
                plan_in(self.nodes@, old_len as int, *new_subplan),
                forall|t: int| 0 <= t < i ==> op_at(self.nodes@, t) == op_at(oldn, t),
                forall|t: int| 0 <= t < i ==> kids(self.nodes@, t).len() == kids(oldn, t).len(),
                forall|t: int, k: int|
                    0 <= t < i && 0 <= k < kids(oldn, t).len() ==> #[trigger] kid(self.nodes@, t, k)
                        == (if kid(oldn, t, k) == id.0 as int {
                        oldn.len() as int
                    } else {
                        kid(oldn, t, k)
                    }),
                forall|t: int| 0 <= t < i ==> #[trigger] node_ok(self.nodes@, t),
                nodes_ok(oldn),
            decreases old_len - i,
        {
            let m = self.nodes[i].children.len();
            let mut new_children: Vec<HepNodeId> = Vec::new();
            let mut k: usize = 0;
            while k < m
                invariant
                    0 <= k <= m,
                    i < self.nodes@.len(),
                    m == kids(self.nodes@, i as int).len(),
                    new_children@.len() == k,
                    forall|j: int|
                        0 <= j < k ==> (#[trigger] new_children@[j]).0 as int == (if kid(
                            self.nodes@,
                            i as int,
                            j,
                        ) == id.0 as int {
                            new_root as int
                        } else {
                            kid(self.nodes@, i as int, j)
                        }),
                decreases m - k,
            {
                let c = self.nodes[i].children[k];
                if c.0 == id.0 {
                    new_children.push(HepNodeId(new_root));
                } else {
                    new_children.push(c);
                }
                k += 1;
            }
            let op = self.nodes[i].operator;
            let ghost before_set = self.nodes@;
            self.nodes.set(i, PlanNode { operator: op, children: new_children });
            proof {
                lemma_plan_in_update_low(
                    before_set,
                    self.nodes@,
                    old_len as int,
                    old_len as int,
                    *new_subplan,
                );
                assert forall|t: int|
                    old_len <= t < self.nodes@.len() implies #[trigger] node_ok(
                    self.nodes@,
                    t,
                ) by {
                    assert(node_ok(before_set, t));
                    assert forall|w: int| 0 <= w < kids(self.nodes@, t).len() implies t
                        < #[trigger] kid(self.nodes@, t, w) < self.nodes@.len() by {
                        assert(kid(self.nodes@, t, w) == kid(before_set, t, w));
                    }
                }
                assert forall|t: int, k2: int|
                    0 <= t < i + 1 && 0 <= k2 < kids(oldn, t).len() implies #[trigger] kid(
                    self.nodes@,
                    t,
                    k2,
                ) == (if kid(oldn, t, k2) == id.0 as int {
                    oldn.len() as int
                } else {
                    kid(oldn, t, k2)
                }) by {
                    if t < i {
                        assert(kid(self.nodes@, t, k2) == kid(before_set, t, k2));
                    } else {
                        assert(kids(before_set, t) == kids(oldn, t));
                        assert(kid(self.nodes@, t, k2) == new_children@[k2].0 as int);
                        assert(kid(before_set, t, k2) == kid(oldn, t, k2));
                    }
                }
                assert forall|t: int| 0 <= t < i + 1 implies #[trigger] node_ok(
                    self.nodes@,
                    t,
                ) by {
                    if t < i {
                        assert(node_ok(before_set, t));
                        assert forall|w: int| 0 <= w < kids(self.nodes@, t).len() implies t
                            < #[trigger] kid(self.nodes@, t, w) < self.nodes@.len() by {
                            assert(kid(self.nodes@, t, w) == kid(before_set, t, w));
                        }
                    } else {
                        assert(node_ok(oldn, t));
                        assert forall|w: int| 0 <= w < kids(self.nodes@, t).len() implies t
                            < #[trigger] kid(self.nodes@, t, w) < self.nodes@.len() by {
                            assert(kids(oldn, t).len() == kids(before_set, t).len());
                            assert(kid(self.nodes@, t, w) == new_children@[w].0 as int);
                            assert(kid(before_set, t, w) == kid(oldn, t, w));
                            assert(t < kid(oldn, t, w) < oldn.len());
                        }
                    }
                }
            }
            i += 1;
        }
        if self.root.0 == id.0 {
            self.root = HepNodeId(new_root);
        }
    }
}

} // verus!
