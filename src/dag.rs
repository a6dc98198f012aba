use vstd::prelude::*;

use daggy::{Dag, NodeIndex, Walker};

verus! {

/// The shape of a dependency graph, kept in a daggy `Dag` with neither node
/// nor edge weights. Verus refuses a declaration of `Dag` itself, whose index
/// parameter is bound by a petgraph trait.
#[verifier::external_body]
pub struct DepDag {
    dag: Dag<(), (), u32>,
}

/// The edges of a dag, in the order they were added, each as (from, to).
pub uninterp spec fn dag_edges(d: DepDag) -> Seq<(usize, usize)>;

/// The number of nodes of a dag.
pub uninterp spec fn dag_node_count(d: DepDag) -> nat;

/// Whether `to` can be reached from `from` over at most `n` edges.
pub open spec fn reaches_within(edges: Seq<(usize, usize)>, from: usize, to: usize, n: nat) -> bool
    decreases n,
{
    from == to || (n > 0 && exists|i: int|
        0 <= i < edges.len() && #[trigger] edges[i].0 == from && reaches_within(
            edges,
            edges[i].1,
            to,
            (n - 1) as nat,
        ))
}

/// Whether `to` can be reached from `from` by following edges.
pub open spec fn reaches(edges: Seq<(usize, usize)>, from: usize, to: usize) -> bool {
    exists|n: nat| #[trigger] reaches_within(edges, from, to, n)
}

/// No edge lies on a cycle.
pub open spec fn acyclic(edges: Seq<(usize, usize)>) -> bool {
    forall|i: int| 0 <= i < edges.len() ==> !reaches(edges, #[trigger] edges[i].1, edges[i].0)
}

/// Relies on daggy's `Dag::new`: an empty dag.
#[verifier::external_body]
pub(crate) fn dag_new() -> (r: DepDag)
    ensures
        dag_edges(r) == Seq::<(usize, usize)>::empty(),
        dag_node_count(r) == 0,
{
    DepDag { dag: Dag::new() }
}

/// Relies on daggy's `Dag::add_node`: the new node's index is the old node
/// count. It panics when the count reaches `u32::MAX`.
#[verifier::external_body]
pub(crate) fn dag_add_node(d: &mut DepDag) -> (r: usize)
    requires
        dag_node_count(*old(d)) < u32::MAX,
    ensures
        r == dag_node_count(*old(d)),
        dag_node_count(*final(d)) == dag_node_count(*old(d)) + 1,
        dag_edges(*final(d)) == dag_edges(*old(d)),
{
    d.dag.add_node(()).index()
}

/// Relies on daggy's `Dag::add_edge`: the edge `a -> b` is added unless `a`
/// can be reached from `b`, which would close a cycle; then the dag is left
/// as it was. A dag never holds a cycle. It panics on a node that does not
/// exist and when the edge count reaches `u32::MAX`.
#[verifier::external_body]
pub(crate) fn dag_add_edge(d: &mut DepDag, a: usize, b: usize) -> (r: bool)
    requires
        a < dag_node_count(*old(d)),
        b < dag_node_count(*old(d)),
        dag_edges(*old(d)).len() < u32::MAX,
        acyclic(dag_edges(*old(d))),
    ensures
        r == !reaches(dag_edges(*old(d)), b, a),
        r ==> dag_edges(*final(d)) == dag_edges(*old(d)).push((a, b)),
        !r ==> dag_edges(*final(d)) == dag_edges(*old(d)),
        dag_node_count(*final(d)) == dag_node_count(*old(d)),
        acyclic(dag_edges(*final(d))),
{
    d.dag.add_edge(NodeIndex::new(a), NodeIndex::new(b), ()).is_ok()
}

/// Relies on daggy's `Dag::parents`: each edge that ends at `child`, once,
/// as (edge index, node it starts from).
#[verifier::external_body]
pub(crate) fn dag_parents(d: &DepDag, child: usize) -> (r: Vec<(usize, usize)>)
    requires
        child < dag_node_count(*d),
    ensures
        forall|k: int|
            0 <= k < r@.len() ==> #[trigger] r@[k].0 < dag_edges(*d).len() && dag_edges(
                *d,
            )[r@[k].0 as int] == (r@[k].1, child),
        forall|e: int|
            0 <= e < dag_edges(*d).len() && (#[trigger] dag_edges(*d)[e]).1 == child ==> exists|
                k: int,
            |
                0 <= k < r@.len() && #[trigger] r@[k].0 == e,
        forall|k1: int, k2: int|
            0 <= k1 < k2 < r@.len() ==> #[trigger] r@[k1].0 != #[trigger] r@[k2].0,
{
    d.dag.parents(NodeIndex::new(child)).iter(&d.dag).map(|(e, n)| (e.index(), n.index())).collect()
}

} // verus!
