//! Which stage comes before which: the dependencies of a pipeline as a graph.
use petgraph::graph::{Graph, NodeIndex};
use petgraph::Directed;
use vstd::prelude::*;

use crate::error::{Error, ErrorView};
use crate::pipeline::{PipelineDef, PipelineView};
use crate::text::copy_text;

verus! {

/// A graph without removals in between.
#[verifier::external_type_specification]
#[verifier::external_body]
#[verifier::reject_recursive_types(N)]
#[verifier::reject_recursive_types(E)]
#[verifier::reject_recursive_types(Ty)]
#[verifier::reject_recursive_types(Ix)]
pub struct ExGraph<N, E, Ty, Ix>(Graph<N, E, Ty, Ix>);

/// The nodes of a graph of stages: the positions of the stages, in the order
/// of the node indices.
pub uninterp spec fn stage_nodes(g: Graph<usize, (), Directed, u32>) -> Seq<usize>;

/// The edges of a graph of stages: the indices of their ends, in the order of
/// their own indices.
pub uninterp spec fn stage_edges(g: Graph<usize, (), Directed, u32>) -> Seq<(int, int)>;

/// `Graph::with_capacity` with no room set aside: a graph without nodes and
/// edges.
#[verifier::external_body]
fn new_graph() -> (g: Graph<usize, (), Directed, u32>)
    ensures
        stage_nodes(g) == Seq::<usize>::empty(),
        stage_edges(g) == Seq::<(int, int)>::empty(),
{
    Graph::with_capacity(0, 0)
}

/// `Graph::add_node`: the new node gets the next index. It panics where all
/// indices are taken.
#[verifier::external_body]
fn add_stage(g: &mut Graph<usize, (), Directed, u32>, stage: usize)
    requires
        stage_nodes(*old(g)).len() < u32::MAX,
    ensures
        stage_nodes(*final(g)) == stage_nodes(*old(g)).push(stage),
        stage_edges(*final(g)) == stage_edges(*old(g)),
{
    g.add_node(stage);
}

/// `Graph::add_edge`: the new edge gets the next index. It panics where all
/// indices are taken or an end does not exist.
#[verifier::external_body]
fn add_dependency(g: &mut Graph<usize, (), Directed, u32>, before: usize, after: usize)
    requires
        before < stage_nodes(*old(g)).len(),
        after < stage_nodes(*old(g)).len(),
        stage_edges(*old(g)).len() < u32::MAX,
    ensures
        stage_nodes(*final(g)) == stage_nodes(*old(g)),
        stage_edges(*final(g)) == stage_edges(*old(g)).push((before as int, after as int)),
{
    g.add_edge(NodeIndex::new(before), NodeIndex::new(after), ());
}

/// Whether a list names each of `n` nodes once, every node before its
/// successors.
pub open spec fn is_topological(order: Seq<usize>, n: nat, edges: Seq<(int, int)>) -> bool {
    &&& order.len() == n
    &&& order.no_duplicates()
    &&& forall|i: usize| i < n ==> #[trigger] order.contains(i)
    &&& forall|k: int|
        0 <= k < edges.len() ==> order.index_of((#[trigger] edges[k]).0 as usize) < order.index_of(
            edges[k].1 as usize,
        )
}

/// Whether a list of nodes follows the edges from a node back to itself.
pub open spec fn is_cycle(path: Seq<int>, i: int, edges: Seq<(int, int)>) -> bool {
    &&& path.len() >= 2
    &&& path.first() == i
    &&& path.last() == i
    &&& forall|k: int|
        0 <= k < path.len() - 1 ==> edges.contains((#[trigger] path[k], path[k + 1]))
}

/// `petgraph::algo::toposort`: where the graph has no cycle, all nodes in an
/// order where each stands before its successors; else a node that takes part
/// in a cycle.
#[verifier::external_body]
fn toposort(g: &Graph<usize, (), Directed, u32>) -> (r: Result<Vec<usize>, usize>)
    ensures
        match r {
            Ok(order) => is_topological(order@, stage_nodes(*g).len(), stage_edges(*g)),
            Err(i) => i < stage_nodes(*g).len() && exists|path: Seq<int>|
                is_cycle(path, i as int, stage_edges(*g)),
        },
{
    match petgraph::algo::toposort(g, None) {
        Ok(order) => Ok(order.into_iter().map(|i| i.index()).collect()),
        Err(cycle) => Err(cycle.node_id().index()),
    }
}

impl PipelineView {
    /// Whether the `k`th dependency of one stage is another.
    pub open spec fn dependency_is(self, i: int, k: int, j: int) -> bool {
        0 <= k < self.stages[i].dependencies().len() && self.stage_at(
            self.stages[i].dependencies()[k],
        ) == Some(j)
    }

    /// Whether one stage depends on another.
    pub open spec fn depends(self, i: int, j: int) -> bool {
        0 <= i < self.stages.len() && exists|k: int| self.dependency_is(i, k, j)
    }

    /// Whether the stages can be ranked so that each stands above those it
    /// depends on.
    pub open spec fn ranked_by(self, rank: Seq<int>) -> bool {
        &&& rank.len() == self.stages.len()
        &&& forall|i: int, j: int| #[trigger] self.depends(i, j) ==> rank[j] < rank[i]
    }

    pub open spec fn acyclic(self) -> bool {
        exists|rank: Seq<int>| self.ranked_by(rank)
    }

    /// Whether a list of stages leads from a stage back to itself, each stage
    /// a dependency of the next.
    pub open spec fn is_loop(self, path: Seq<int>, i: int) -> bool {
        &&& path.len() >= 2
        &&& path.first() == i
        &&& path.last() == i
        &&& forall|k: int| 0 <= k < path.len() - 1 ==> self.depends(path[k + 1], #[trigger] path[k])
    }

    /// Whether a stage depends on itself, directly or by way of others.
    pub open spec fn on_loop(self, i: int) -> bool {
        0 <= i < self.stages.len() && exists|path: Seq<int>| self.is_loop(path, i)
    }

    /// The number of dependencies of the first `n` stages.
    pub open spec fn dependency_count(self, n: int) -> nat
        decreases n,
    {
        if n <= 0 {
            0
        } else {
            self.dependency_count(n - 1) + self.stages[n - 1].dependencies().len()
        }
    }

    /// Whether stages and dependencies can all be numbered: an index has 32
    /// bits, and its greatest value stands for no index.
    pub open spec fn fits(self) -> bool {
        self.stages.len() <= u32::MAX && self.dependency_count(self.stages.len() as int)
            <= u32::MAX
    }
}

/// The complaint about a stage that depends on itself.
pub open spec fn loop_complaint(name: Seq<char>) -> Seq<char> {
    "dependency cycle detected at stage '"@ + name + "'"@
}

proof fn lemma_ranks_rise(p: PipelineView, rank: Seq<int>, path: Seq<int>, n: int)
    requires
        p.ranked_by(rank),
        1 <= n < path.len(),
        forall|k: int| 0 <= k < path.len() - 1 ==> p.depends(path[k + 1], #[trigger] path[k]),
    ensures
        rank[path[0]] < rank[path[n]],
    decreases n,
{
    assert(p.depends(path[n - 1 + 1], path[n - 1]));
    if n > 1 {
        lemma_ranks_rise(p, rank, path, n - 1);
    }
}

/// A pipeline where some stage depends on itself cannot be ordered.
pub proof fn law_a_loop_has_no_order(p: PipelineView, i: int)
    requires
        p.on_loop(i),
    ensures
        !p.acyclic(),
{
    if p.acyclic() {
        let rank = choose|rank: Seq<int>| p.ranked_by(rank);
        let path = choose|path: Seq<int>| p.is_loop(path, i);
        lemma_ranks_rise(p, rank, path, path.len() - 1);
    }
}

impl PipelineDef {
    /// Whether stages and dependencies can all be numbered.
    pub fn within_limits(&self) -> (r: bool)
        ensures
            r == self@.fits(),
    {
        let ghost p = self@;
        let limit: usize = u32::MAX as usize;
        if self.stages.len() > limit {
            return false;
        }
        let mut count: usize = 0;
        let mut i: usize = 0;
        while i < self.stages.len()
            invariant
                i <= self.stages.len(),
                p == self@,
                limit == u32::MAX,
                p.stages.len() <= limit,
                count == p.dependency_count(i as int),
                count <= limit,
            decreases self.stages.len() - i,
        {
            let deps = self.stages[i].dependencies();
            assert(p.stages[i as int] == self.stages@[i as int]@);
            assert(deps@.map_values(|s: &str| s@).len() == p.stages[i as int].dependencies().len());
            assert(p.dependency_count(i + 1) == count + deps.len());
            if deps.len() > limit - count {
                proof {
                    lemma_count_grows(p, i + 1, p.stages.len() as int);
                }
                return false;
            }
            count += deps.len();
            i += 1;
        }
        true
    }
}

proof fn lemma_count_grows(p: PipelineView, n: int, m: int)
    requires
        0 <= n <= m,
    ensures
        p.dependency_count(n) <= p.dependency_count(m),
    decreases m,
{
    if n < m {
        lemma_count_grows(p, n, m - 1);
    }
}

/// The edges that the dependencies of the first stages make.
spec fn drawn(p: PipelineView, edges: Seq<(int, int)>, n: int, m: int) -> bool {
    &&& forall|e: (int, int)| #[trigger]
        edges.contains(e) ==> 0 <= e.0 < p.stages.len() && 0 <= e.1 < p.stages.len() && p.depends(
            e.1,
            e.0,
        )
    &&& forall|i: int, k: int, j: int|
        0 <= i < p.stages.len() && (i < n || (i == n && k < m)) && #[trigger] p.dependency_is(i, k, j)
            ==> edges.contains((j, i))
}

/// Detects cycles in the stage dependency graph up front so a malformed
/// pipeline fails fast instead of waiting forever. No two stages share a name.
pub fn assert_acyclic(pipeline: &PipelineDef) -> (r: Result<(), Error>)
    requires
        pipeline@.names().no_duplicates(),
        pipeline@.fits(),
    ensures
        r is Ok == pipeline@.acyclic(),
        match r {
            Ok(()) => true,
            Err(e) => exists|i: int| #[trigger]
                pipeline@.on_loop(i) && e@ == ErrorView::InvalidPipeline(
                    loop_complaint(pipeline@.stages[i].name),
                ),
        },
{
    let ghost p = pipeline@;
    let mut g = new_graph();
    let mut n: usize = 0;
    while n < pipeline.stages.len()
        invariant
            n <= pipeline.stages.len(),
            p == pipeline@,
            p.fits(),
            stage_nodes(g).len() == n,
            stage_edges(g) == Seq::<(int, int)>::empty(),
        decreases pipeline.stages.len() - n,
    {
        add_stage(&mut g, n);
        n += 1;
    }
    let mut i: usize = 0;
    while i < pipeline.stages.len()
        invariant
            i <= pipeline.stages.len(),
            p == pipeline@,
            p.fits(),
            stage_nodes(g).len() == p.stages.len(),
            stage_edges(g).len() <= p.dependency_count(i as int),
            drawn(p, stage_edges(g), i as int, 0),
        decreases pipeline.stages.len() - i,
    {
        let deps = pipeline.stages[i].dependencies();
        let ghost dep_texts = deps@.map_values(|s: &str| s@);
        proof {
            assert(p.stages[i as int] == pipeline.stages@[i as int]@);
            assert(dep_texts == p.stages[i as int].dependencies());
            lemma_count_grows(p, i + 1, p.stages.len() as int);
        }
        let mut d: usize = 0;
        while d < deps.len()
            invariant
                d <= deps.len(),
                i < pipeline.stages.len(),
                p == pipeline@,
                dep_texts == deps@.map_values(|s: &str| s@),
                dep_texts == p.stages[i as int].dependencies(),
                stage_nodes(g).len() == p.stages.len(),
                p.dependency_count(i as int) + deps.len() <= u32::MAX,
                stage_edges(g).len() <= p.dependency_count(i as int) + d,
                drawn(p, stage_edges(g), i as int, d as int),
            decreases deps.len() - d,
        {
            assert(dep_texts[d as int] == deps@[d as int]@);
            let ghost before = stage_edges(g);
            match pipeline.position(deps[d]) {
                Some(j) => {
                    add_dependency(&mut g, j, i);
                    proof {
                        let after = stage_edges(g);
                        assert(p.dependency_is(i as int, d as int, j as int));
                        assert forall|e: (int, int)| #[trigger]
                            after.contains(e) implies 0 <= e.0 < p.stages.len() && 0 <= e.1
                            < p.stages.len() && p.depends(e.1, e.0) by {
                            let at = after.index_of(e);
                            if at < before.len() {
                                assert(before[at] == e);
                                assert(before.contains(e));
                            }
                        }
                        assert forall|a: int, k: int, b: int|
                            0 <= a < p.stages.len() && (a < i || (a == i && k < d + 1))
                                && #[trigger] p.dependency_is(a, k, b) implies after.contains(
                            (b, a),
                        ) by {
                            if a < i || k < d {
                                assert(before.contains((b, a)));
                                let at = before.index_of((b, a));
                                assert(after[at] == (b, a));
                            } else {
                                assert(after[before.len() as int] == (b, a));
                            }
                        }
                    }
                },
                None => {
                    assert forall|a: int, k: int, b: int|
                        0 <= a < p.stages.len() && (a < i || (a == i && k < d + 1))
                            && #[trigger] p.dependency_is(a, k, b) implies before.contains(
                        (b, a),
                    ) by {}
                },
            }
            d += 1;
        }
        proof {
            assert forall|a: int, k: int, b: int|
                0 <= a < p.stages.len() && (a < i + 1 || (a == i + 1 && k < 0))
                    && #[trigger] p.dependency_is(a, k, b) implies stage_edges(g).contains(
                (b, a),
            ) by {}
        }
        i += 1;
    }
    let ghost edges = stage_edges(g);
    match toposort(&g) {
        Ok(order) => {
            proof {
                let rank = Seq::new(p.stages.len(), |i: int| order@.index_of(i as usize));
                assert forall|a: int, b: int| #[trigger] p.depends(a, b) implies rank[b]
                    < rank[a] by {
                    let k = choose|k: int| p.dependency_is(a, k, b);
                    assert(edges.contains((b, a)));
                    let at = edges.index_of((b, a));
                    assert(edges[at] == (b, a));
                }
                assert(p.ranked_by(rank));
            }
            Ok(())
        },
        Err(at) => {
            proof {
                let path = choose|path: Seq<int>| is_cycle(path, at as int, edges);
                assert forall|k: int| 0 <= k < path.len() - 1 implies p.depends(
                    path[k + 1],
                    #[trigger] path[k],
                ) by {
                    assert(edges.contains((path[k], path[k + 1])));
                }
                assert(p.is_loop(path, at as int));
                assert(p.on_loop(at as int));
                law_a_loop_has_no_order(p, at as int);
                assert(p.stages[at as int] == pipeline.stages@[at as int]@);
            }
            let mut m = copy_text("dependency cycle detected at stage '");
            m.append(pipeline.stages[at].name.as_str());
            m.append("'");
            Err(Error::InvalidPipeline(m))
        },
    }
}

} // verus!
