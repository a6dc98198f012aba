use vstd::prelude::*;

use crate::dag::{
    acyclic, dag_add_edge, dag_add_node, dag_edges, dag_new, dag_node_count, dag_parents, reaches,
    reaches_within, DepDag,
};
use crate::executor::Executor;
use crate::predicate::{Condition, StatusCondition};
use crate::state::State;
use crate::status::{combine, ApplyError, ApplyStatus};
use crate::target::Target;

verus! {

/// An edge of the graph: `node` depends on `depends_on`. The depender is
/// applied from that edge only when `pre_condition` holds on the target and
/// `apply_condition` holds on the outcome of the dependency.
pub struct Dependency {
    pub node: usize,
    pub depends_on: usize,
    pub pre_condition: Condition,
    pub apply_condition: StatusCondition,
}

#[derive(Debug, PartialEq, Eq, Structural)]
pub enum GraphError {
    CyclicDependency,
}

impl GraphError {
    /// The error as text.
    pub fn to_string(&self) -> (r: String)
        ensures
            r@ == "Found cyclic dependency!"@,
    {
        proof {
            reveal_strlit("Found cyclic dependency!");
        }
        String::from_str("Found cyclic dependency!")
    }
}

/// Whether some edge starts at `n`.
pub open spec fn has_outgoing(edges: Seq<(usize, usize)>, n: usize) -> bool {
    exists|i: int| 0 <= i < edges.len() && #[trigger] edges[i].0 == n
}

/// A record of applied nodes: each one once, each one a node of a graph of
/// `n` nodes.
pub open spec fn trail_ok(t: Seq<usize>, n: nat) -> bool {
    t.no_duplicates() && forall|k: int| 0 <= k < t.len() ==> #[trigger] t[k] < n
}

spec fn below(n: nat) -> Set<usize> {
    Set::new(|x: usize| x < n)
}

proof fn lemma_below(n: nat)
    requires
        n <= usize::MAX,
    ensures
        below(n).finite(),
        below(n).len() == n,
    decreases n,
{
    if n == 0 {
        assert(below(0) =~= Set::<usize>::empty());
    } else {
        lemma_below((n - 1) as nat);
        assert(below(n) =~= below((n - 1) as nat).insert((n - 1) as usize));
    }
}

/// A record of applied nodes is no longer than the graph has nodes.
proof fn lemma_trail_len(t: Seq<usize>, n: nat)
    requires
        trail_ok(t, n),
        n <= usize::MAX,
    ensures
        t.len() <= n,
{
    lemma_below(n);
    t.unique_seq_to_set();
    assert forall|x: usize| t.to_set().contains(x) implies below(n).contains(x) by {
        let i = choose|i: int| 0 <= i < t.len() && t[i] == x;
    }
    vstd::set_lib::lemma_len_subset(t.to_set(), below(n));
}

/// Inter-dependent states: nodes that each hold a state, and edges between
/// them that never close a cycle.
pub struct Graph<S> {
    dag: DepDag,
    nodes: Vec<S>,
    dependencies: Vec<Dependency>,
    independent: Vec<bool>,
    name: String,
}

impl<S> Graph<S> {
    #[verifier::type_invariant]
    spec fn wf(&self) -> bool {
        let edges = dag_edges(self.dag);
        &&& self.nodes@.len() == dag_node_count(self.dag)
        &&& self.nodes@.len() <= u32::MAX
        &&& self.independent@.len() == self.nodes@.len()
        &&& self.dependencies@.len() == edges.len()
        &&& forall|i: int|
            0 <= i < edges.len() ==> (#[trigger] edges[i]).0 < self.nodes@.len() && edges[i].1
                < self.nodes@.len() && self.dependencies@[i].node == edges[i].0
                && self.dependencies@[i].depends_on == edges[i].1
        &&& acyclic(edges)
        &&& forall|n: int|
            0 <= n < self.nodes@.len() ==> (#[trigger] self.independent@[n] <==> !has_outgoing(
                edges,
                n as usize,
            ))
    }

    /// Number of nodes.
    pub open spec fn node_count(&self) -> nat {
        self.states().len()
    }

    /// The edges, in the order they were added, each as (depender, dependency).
    pub closed spec fn edges(&self) -> Seq<(usize, usize)> {
        dag_edges(self.dag)
    }

    /// The state of each node.
    pub closed spec fn states(&self) -> Seq<S> {
        self.nodes@
    }

    /// The pre-condition of the `e`-th edge.
    pub closed spec fn pre_condition(&self, e: int) -> Condition {
        self.dependencies@[e].pre_condition
    }

    /// The apply-condition of the `e`-th edge.
    pub closed spec fn apply_condition(&self, e: int) -> StatusCondition {
        self.dependencies@[e].apply_condition
    }

    pub closed spec fn label_of(&self) -> Seq<char> {
        self.name@
    }

    /// An entry point of the traversal: a node that depends on nothing.
    pub open spec fn is_root(&self, n: usize) -> bool {
        n < self.node_count() && !has_outgoing(self.edges(), n)
    }

    pub fn new(name: &str) -> (r: Graph<S>)
        ensures
            r.node_count() == 0,
            r.edges() == Seq::<(usize, usize)>::empty(),
            r.label_of() == name@,
            acyclic(r.edges()),
    {
        Graph {
            dag: dag_new(),
            nodes: Vec::new(),
            dependencies: Vec::new(),
            independent: Vec::new(),
            name: name.to_owned(),
        }
    }

    /// Adds a node holding `state`; it starts as a root.
    pub fn add(&mut self, state: S) -> (id: usize)
        requires
            old(self).node_count() < u32::MAX,
        ensures
            id == old(self).node_count(),
            final(self).states() == old(self).states().push(state),
            final(self).edges() == old(self).edges(),
            final(self).is_root(id),
            forall|e: int|
                0 <= e < old(self).edges().len() ==> final(self).pre_condition(e) == old(
                    self,
                ).pre_condition(e) && final(self).apply_condition(e) == old(self).apply_condition(
                    e,
                ),
            final(self).label_of() == old(self).label_of(),
            acyclic(final(self).edges()),
    {
        let mut g = Graph::new("");
        std::mem::swap(self, &mut g);
        proof {
            use_type_invariant(&g);
        }
        let Graph { mut dag, mut nodes, dependencies, mut independent, name } = g;
        let id = dag_add_node(&mut dag);
        nodes.push(state);
        independent.push(true);
        proof {
            let edges = dag_edges(dag);
            assert forall|n: int| 0 <= n < nodes@.len() implies (#[trigger] independent@[n]
                <==> !has_outgoing(edges, n as usize)) by {
                if n == id {
                    if has_outgoing(edges, n as usize) {
                        let i = choose|i: int| 0 <= i < edges.len() && #[trigger] edges[i].0 == n as usize;
                        assert(edges[i].0 < id);
                    }
                }
            }
        }
        *self = Graph { dag, nodes, dependencies, independent, name };
        proof {
            use_type_invariant(&*self);
        }
        id
    }

    /// Declares that `node` depends on `depends_on`. Fails, leaving the graph
    /// as it was, when `node` can already be reached from `depends_on`: the
    /// edge would close a cycle. On success `node` is no longer a root.
    pub fn add_dependency(
        &mut self,
        node: usize,
        depends_on: usize,
        pre_condition: Condition,
        apply_condition: StatusCondition,
    ) -> (r: Result<(), GraphError>)
        requires
            node < old(self).node_count(),
            depends_on < old(self).node_count(),
            old(self).edges().len() < u32::MAX,
        ensures
            r is Ok <==> !reaches(old(self).edges(), depends_on, node),
            r is Err ==> r == Err::<(), GraphError>(GraphError::CyclicDependency),
            r is Ok ==> final(self).edges() == old(self).edges().push((node, depends_on)),
            r is Ok ==> final(self).pre_condition(old(self).edges().len() as int) == pre_condition,
            r is Ok ==> final(self).apply_condition(old(self).edges().len() as int)
                == apply_condition,
            r is Ok ==> !final(self).is_root(node),
            r is Err ==> final(self).edges() == old(self).edges(),
            final(self).states() == old(self).states(),
            forall|e: int|
                0 <= e < old(self).edges().len() ==> final(self).pre_condition(e) == old(
                    self,
                ).pre_condition(e) && final(self).apply_condition(e) == old(self).apply_condition(
                    e,
                ),
            final(self).label_of() == old(self).label_of(),
            acyclic(final(self).edges()),
    {
        let mut g = Graph::new("");
        std::mem::swap(self, &mut g);
        proof {
            use_type_invariant(&g);
        }
        let Graph { mut dag, nodes, mut dependencies, mut independent, name } = g;
        let ghost old_edges = dag_edges(dag);
        let added = dag_add_edge(&mut dag, node, depends_on);
        if added {
            dependencies.push(Dependency { node, depends_on, pre_condition, apply_condition });
            independent.set(node, false);
            proof {
                let edges = dag_edges(dag);
                assert(edges[old_edges.len() as int] == (node, depends_on));
                assert forall|n: int| 0 <= n < nodes@.len() implies (#[trigger] independent@[n]
                    <==> !has_outgoing(edges, n as usize)) by {
                    if n == node {
                        assert(edges[old_edges.len() as int].0 == node);
                    } else {
                        if has_outgoing(edges, n as usize) {
                            let i = choose|i: int| 0 <= i < edges.len() && #[trigger] edges[i].0 == n as usize;
                            assert(i < old_edges.len());
                            assert(old_edges[i].0 == n as usize);
                        }
                        if has_outgoing(old_edges, n as usize) {
                            let i = choose|i: int| 0 <= i < old_edges.len() && #[trigger] old_edges[i].0 == n as usize;
                            assert(edges[i].0 == n as usize);
                        }
                    }
                }
                assert(has_outgoing(edges, node)) by {
                    assert(edges[old_edges.len() as int].0 == node);
                }
            }
            *self = Graph { dag, nodes, dependencies, independent, name };
            proof {
                use_type_invariant(&*self);
            }
            Ok(())
        } else {
            *self = Graph { dag, nodes, dependencies, independent, name };
            proof {
                use_type_invariant(&*self);
            }
            Err(GraphError::CyclicDependency)
        }
    }

    /// `node` depends on `dependency` unconditionally: the dependency is
    /// applied first and always leads on to `node`.
    pub fn depends_on(&mut self, node: usize, dependency: usize) -> (r: Result<usize, GraphError>)
        requires
            node < old(self).node_count(),
            dependency < old(self).node_count(),
            old(self).edges().len() < u32::MAX,
        ensures
            r is Ok <==> !reaches(old(self).edges(), dependency, node),
            r is Ok ==> r == Ok::<usize, GraphError>(node),
            r is Err ==> r == Err::<usize, GraphError>(GraphError::CyclicDependency),
            r is Ok ==> final(self).edges() == old(self).edges().push((node, dependency)),
            r is Ok ==> final(self).pre_condition(old(self).edges().len() as int)
                == Condition::Always,
            r is Ok ==> final(self).apply_condition(old(self).edges().len() as int)
                == StatusCondition::Always,
            r is Err ==> final(self).edges() == old(self).edges(),
            final(self).states() == old(self).states(),
            forall|e: int|
                0 <= e < old(self).edges().len() ==> final(self).pre_condition(e) == old(
                    self,
                ).pre_condition(e) && final(self).apply_condition(e) == old(self).apply_condition(
                    e,
                ),
            final(self).label_of() == old(self).label_of(),
            acyclic(final(self).edges()),
    {
        proof {
            use_type_invariant(&*self);
        }
        match self.add_dependency(node, dependency, Condition::Always, StatusCondition::Always) {
            Ok(()) => Ok(node),
            Err(e) => Err(e),
        }
    }

    /// `node` depends on `dependency` and is applied from it only when the
    /// dependency reports a change.
    pub fn apply_if_changed(&mut self, node: usize, dependency: usize) -> (r: Result<
        usize,
        GraphError,
    >)
        requires
            node < old(self).node_count(),
            dependency < old(self).node_count(),
            old(self).edges().len() < u32::MAX,
        ensures
            r is Ok <==> !reaches(old(self).edges(), dependency, node),
            r is Ok ==> r == Ok::<usize, GraphError>(node),
            r is Err ==> r == Err::<usize, GraphError>(GraphError::CyclicDependency),
            r is Ok ==> final(self).edges() == old(self).edges().push((node, dependency)),
            r is Ok ==> final(self).pre_condition(old(self).edges().len() as int)
                == Condition::Always,
            r is Ok ==> final(self).apply_condition(old(self).edges().len() as int)
                == StatusCondition::IfChanged,
            r is Err ==> final(self).edges() == old(self).edges(),
            final(self).states() == old(self).states(),
            forall|e: int|
                0 <= e < old(self).edges().len() ==> final(self).pre_condition(e) == old(
                    self,
                ).pre_condition(e) && final(self).apply_condition(e) == old(self).apply_condition(
                    e,
                ),
            final(self).label_of() == old(self).label_of(),
            acyclic(final(self).edges()),
    {
        proof {
            use_type_invariant(&*self);
        }
        match self.add_dependency(node, dependency, Condition::Always, StatusCondition::IfChanged) {
            Ok(()) => Ok(node),
            Err(e) => Err(e),
        }
    }
}

fn trail_contains(trail: &Vec<usize>, id: usize) -> (r: bool)
    ensures
        r == trail@.contains(id),
{
    let mut i: usize = 0;
    while i < trail.len()
        invariant
            i <= trail@.len(),
            forall|j: int| 0 <= j < i ==> trail@[j] != id,
        decreases trail@.len() - i,
    {
        if trail[i] == id {
            assert(trail@[i as int] == id);
            return true;
        }
        i = i + 1;
    }
    false
}

/// Every outcome in `rs[lo..hi]` is a success.
pub open spec fn all_ok(rs: Seq<Result<ApplyStatus, ApplyError>>, lo: int, hi: int) -> bool {
    forall|k: int| lo <= k < hi ==> (#[trigger] rs[k]) is Ok
}

/// Some outcome in `rs[lo..hi]` is `Changed`.
pub open spec fn changed_in(rs: Seq<Result<ApplyStatus, ApplyError>>, lo: int, hi: int) -> bool {
    exists|k: int| lo <= k < hi && #[trigger] rs[k] == Ok::<ApplyStatus, ApplyError>(ApplyStatus::Changed)
}

/// The outcomes in `rs[lo..hi]` folded together.
pub open spec fn fold_status(rs: Seq<Result<ApplyStatus, ApplyError>>, lo: int, hi: int) -> ApplyStatus {
    if changed_in(rs, lo, hi) {
        ApplyStatus::Changed
    } else {
        ApplyStatus::NotChanged
    }
}

proof fn lemma_fold_split(rs: Seq<Result<ApplyStatus, ApplyError>>, lo: int, mid: int, hi: int)
    requires
        lo <= mid <= hi,
    ensures
        fold_status(rs, lo, hi) == combine(fold_status(rs, lo, mid), fold_status(rs, mid, hi)),
{
    if changed_in(rs, lo, hi) {
        let k = choose|k: int| lo <= k < hi && #[trigger] rs[k] == Ok::<ApplyStatus, ApplyError>(ApplyStatus::Changed);
        if k < mid {
            assert(changed_in(rs, lo, mid));
        } else {
            assert(changed_in(rs, mid, hi));
        }
    }
    if changed_in(rs, lo, mid) {
        let k = choose|k: int| lo <= k < mid && #[trigger] rs[k] == Ok::<ApplyStatus, ApplyError>(ApplyStatus::Changed);
        assert(changed_in(rs, lo, hi));
    }
    if changed_in(rs, mid, hi) {
        let k = choose|k: int| mid <= k < hi && #[trigger] rs[k] == Ok::<ApplyStatus, ApplyError>(ApplyStatus::Changed);
        assert(changed_in(rs, lo, hi));
    }
}

proof fn lemma_fold_prefix(
    rs1: Seq<Result<ApplyStatus, ApplyError>>,
    rs2: Seq<Result<ApplyStatus, ApplyError>>,
    lo: int,
    hi: int,
)
    requires
        0 <= lo <= hi <= rs1.len() <= rs2.len(),
        rs2.subrange(0, rs1.len() as int) == rs1,
    ensures
        fold_status(rs1, lo, hi) == fold_status(rs2, lo, hi),
        all_ok(rs1, lo, hi) == all_ok(rs2, lo, hi),
{
    assert forall|k: int| lo <= k < hi implies rs1[k] == rs2[k] by {
        assert(rs2.subrange(0, rs1.len() as int)[k] == rs2[k]);
    }
    if changed_in(rs1, lo, hi) {
        let k = choose|k: int| lo <= k < hi && #[trigger] rs1[k] == Ok::<ApplyStatus, ApplyError>(ApplyStatus::Changed);
        assert(rs2[k] == rs1[k]);
    }
    if changed_in(rs2, lo, hi) {
        let k = choose|k: int| lo <= k < hi && #[trigger] rs2[k] == Ok::<ApplyStatus, ApplyError>(ApplyStatus::Changed);
        assert(rs2[k] == rs1[k]);
    }
}

impl<S: State> Graph<S> {
    /// Applying the state of node `n`.
    pub open spec fn node_run(
        &self,
        target: Target,
        n: usize,
        before: Seq<Seq<char>>,
        after: Seq<Seq<char>>,
        r: Result<ApplyStatus, ApplyError>,
    ) -> bool {
        self.states()[n as int].run(target, before, after, r)
    }

    /// The nodes of `t` were applied in that order: the `k`-th took the
    /// journal from `js[k]` to `js[k + 1]` with outcome `rs[k]`.
    pub open spec fn log_ok(
        &self,
        target: Target,
        t: Seq<usize>,
        js: Seq<Seq<Seq<char>>>,
        rs: Seq<Result<ApplyStatus, ApplyError>>,
    ) -> bool {
        &&& js.len() == t.len() + 1
        &&& rs.len() == t.len()
        &&& forall|k: int|
            0 <= k < t.len() ==> #[trigger] self.node_run(target, t[k], js[k], js[k + 1], rs[k])
    }

    /// The `k`-th node of `t` depends, by an edge whose conditions let it
    /// through, on a node applied before it: the pre-condition holds on
    /// `target` and the apply-condition on that node's outcome.
    pub open spec fn triggered(
        &self,
        t: Seq<usize>,
        rs: Seq<Result<ApplyStatus, ApplyError>>,
        k: int,
        target: Target,
    ) -> bool {
        exists|j: int, e: int|
            #![trigger t[j], self.edges()[e]]
            0 <= j < k && 0 <= e < self.edges().len() && self.edges()[e] == (t[k], t[j])
                && self.pre_condition(e).holds(target) && rs[j] is Ok
                && self.apply_condition(e).holds(rs[j]->Ok_0)
    }

    /// Every depender that an edge into a node of `t[lo..hi]` lets through
    /// was applied.
    pub open spec fn complete(
        &self,
        t: Seq<usize>,
        rs: Seq<Result<ApplyStatus, ApplyError>>,
        lo: int,
        hi: int,
        target: Target,
    ) -> bool {
        forall|j: int, e: int|
            #![trigger t[j], self.edges()[e]]
            lo <= j < hi && 0 <= e < self.edges().len() && self.edges()[e].1 == t[j]
                && self.pre_condition(e).holds(target) && rs[j] is Ok
                && self.apply_condition(e).holds(rs[j]->Ok_0) ==> t.contains(self.edges()[e].0)
    }

    /// `t` is an order of application that a traversal may take: no node
    /// twice, and each node a root or applied after a dependency that led to it.
    pub open spec fn traversal(
        &self,
        t: Seq<usize>,
        rs: Seq<Result<ApplyStatus, ApplyError>>,
        target: Target,
    ) -> bool {
        &&& trail_ok(t, self.node_count())
        &&& forall|k: int|
            0 <= k < t.len() ==> self.is_root(#[trigger] t[k]) || self.triggered(t, rs, k, target)
    }

    /// A node that was triggered stays triggered as the record grows.
    proof fn lemma_triggered_prefix(
        &self,
        t1: Seq<usize>,
        t2: Seq<usize>,
        rs1: Seq<Result<ApplyStatus, ApplyError>>,
        rs2: Seq<Result<ApplyStatus, ApplyError>>,
        k: int,
        target: Target,
    )
        requires
            t1.len() <= t2.len(),
            t2.subrange(0, t1.len() as int) == t1,
            rs1.len() <= rs2.len(),
            rs2.subrange(0, rs1.len() as int) == rs1,
            0 <= k < t1.len(),
            k <= rs1.len(),
            self.triggered(t1, rs1, k, target),
        ensures
            self.triggered(t2, rs2, k, target),
    {
        let (j, e) = choose|j: int, e: int|
            #![trigger t1[j], self.edges()[e]]
            0 <= j < k && 0 <= e < self.edges().len() && self.edges()[e] == (t1[k], t1[j])
                && self.pre_condition(e).holds(target) && rs1[j] is Ok
                && self.apply_condition(e).holds(rs1[j]->Ok_0);
        assert(t2[j] == t2.subrange(0, t1.len() as int)[j]);
        assert(t2[k] == t2.subrange(0, t1.len() as int)[k]);
        assert(rs2[j] == rs2.subrange(0, rs1.len() as int)[j]);
    }

    /// What a record showed complete stays complete as it grows.
    proof fn lemma_complete_prefix(
        &self,
        t1: Seq<usize>,
        t2: Seq<usize>,
        rs1: Seq<Result<ApplyStatus, ApplyError>>,
        rs2: Seq<Result<ApplyStatus, ApplyError>>,
        lo: int,
        hi: int,
        target: Target,
    )
        requires
            t1.len() <= t2.len(),
            t2.subrange(0, t1.len() as int) == t1,
            rs1.len() <= rs2.len(),
            rs2.subrange(0, rs1.len() as int) == rs1,
            0 <= lo <= hi <= t1.len(),
            hi <= rs1.len(),
            self.complete(t1, rs1, lo, hi, target),
        ensures
            self.complete(t2, rs2, lo, hi, target),
    {
        assert forall|j: int, e: int|
            #![trigger t2[j], self.edges()[e]]
            lo <= j < hi && 0 <= e < self.edges().len() && self.edges()[e].1 == t2[j]
                && self.pre_condition(e).holds(target) && rs2[j] is Ok
                && self.apply_condition(e).holds(rs2[j]->Ok_0) implies t2.contains(
            self.edges()[e].0,
        ) by {
            assert(t2[j] == t2.subrange(0, t1.len() as int)[j]);
            assert(rs2[j] == rs2.subrange(0, rs1.len() as int)[j]);
            assert(t1[j] == t2[j]);
            assert(t1.contains(self.edges()[e].0));
            let x = choose|x: int| 0 <= x < t1.len() && t1[x] == self.edges()[e].0;
            assert(t2[x] == t2.subrange(0, t1.len() as int)[x]);
        }
    }

    /// Applies node `id` unless `trail` shows it applied already, then each
    /// depender whose edge lets it through, depth first. `js` and `rs` hold
    /// the journals and outcomes of the nodes of `trail`; the extended ones
    /// come back beside the outcome.
    fn apply_on_node(
        &self,
        id: usize,
        executor: &mut Executor,
        target: &Target,
        trail: &mut Vec<usize>,
        Ghost(js): Ghost<Seq<Seq<Seq<char>>>>,
        Ghost(rs): Ghost<Seq<Result<ApplyStatus, ApplyError>>>,
    ) -> (out: (
        Result<ApplyStatus, ApplyError>,
        Ghost<Seq<Seq<Seq<char>>>>,
        Ghost<Seq<Result<ApplyStatus, ApplyError>>>,
    ))
        requires
            id < self.node_count(),
            trail_ok(old(trail)@, self.node_count()),
            self.log_ok(*target, old(trail)@, js, rs),
            js.last() == old(executor)@,
            all_ok(rs, 0, rs.len() as int),
        ensures
            trail_ok(final(trail)@, self.node_count()),
            old(trail)@.len() <= final(trail)@.len(),
            final(trail)@.subrange(0, old(trail)@.len() as int) == old(trail)@,
            js.len() <= out.1@.len(),
            out.1@.subrange(0, js.len() as int) == js,
            rs.len() <= out.2@.len(),
            out.2@.subrange(0, rs.len() as int) == rs,
            self.log_ok(*target, final(trail)@, out.1@, out.2@),
            out.1@.last() == final(executor)@,
            old(trail)@.contains(id) ==> out.0 == Ok::<ApplyStatus, ApplyError>(
                ApplyStatus::NotChanged,
            ) && final(trail)@ == old(trail)@ && out.1@ == js && out.2@ == rs,
            !old(trail)@.contains(id) ==> old(trail)@.len() < final(trail)@.len()
                && final(trail)@[old(trail)@.len() as int] == id,
            forall|k: int|
                old(trail)@.len() < k < final(trail)@.len() ==> self.triggered(
                    final(trail)@,
                    out.2@,
                    k,
                    *target,
                ),
            out.0 is Ok ==> all_ok(out.2@, 0, out.2@.len() as int) && out.0 == Ok::<
                ApplyStatus,
                ApplyError,
            >(fold_status(out.2@, old(trail)@.len() as int, final(trail)@.len() as int))
                && self.complete(
                final(trail)@,
                out.2@,
                old(trail)@.len() as int,
                final(trail)@.len() as int,
                *target,
            ),
            out.0 is Err ==> old(trail)@.len() < final(trail)@.len() && out.0 == out.2@.last()
                && all_ok(out.2@, 0, out.2@.len() - 1),
        decreases self.node_count() - old(trail)@.len(),
    {
        proof {
            use_type_invariant(self);
        }
        if trail_contains(trail, id) {
            assert(trail@.subrange(0, trail@.len() as int) =~= trail@);
            assert(js.subrange(0, js.len() as int) =~= js);
            assert(rs.subrange(0, rs.len() as int) =~= rs);
            assert(!changed_in(rs, rs.len() as int, rs.len() as int));
            return (Ok(ApplyStatus::NotChanged), Ghost(js), Ghost(rs));
        }
        let ghost start = trail@;
        trail.push(id);
        proof {
            assert(trail@.no_duplicates()) by {
                assert forall|a: int, b: int|
                    0 <= a < trail@.len() && 0 <= b < trail@.len() && a != b implies trail@[a]
                    != trail@[b] by {
                    if a == start.len() {
                        assert(!start.contains(id));
                        assert(start[b] != id);
                    } else if b == start.len() {
                        assert(!start.contains(id));
                        assert(start[a] != id);
                    }
                }
            }
            assert(trail@.subrange(0, start.len() as int) =~= start);
            lemma_trail_len(trail@, self.node_count());
        }
        let ghost j0 = executor@;
        let rid = self.nodes[id].apply(executor, target);
        let ghost mut cjs = js.push(executor@);
        let ghost mut crs = rs.push(rid);
        proof {
            assert(self.node_run(*target, id, j0, executor@, rid));
            assert forall|k: int| 0 <= k < trail@.len() implies #[trigger] self.node_run(
                *target,
                trail@[k],
                cjs[k],
                cjs[k + 1],
                crs[k],
            ) by {
                if k < start.len() {
                    assert(self.node_run(*target, start[k], js[k], js[k + 1], rs[k]));
                }
            }
            assert(cjs.subrange(0, js.len() as int) =~= js);
            assert(crs.subrange(0, rs.len() as int) =~= rs);
        }
        let status = match rid {
            Ok(s) => s,
            Err(e) => {
                return (Err(e), Ghost(cjs), Ghost(crs));
            },
        };
        proof {
            assert(crs[start.len() as int] == Ok::<ApplyStatus, ApplyError>(status));
            if status == ApplyStatus::Changed {
                assert(changed_in(crs, start.len() as int, crs.len() as int));
            }
        }
        let mut result = status;
        let parents = dag_parents(&self.dag, id);
        let mut k: usize = 0;
        while k < parents.len()
            invariant
                self.wf(),
                id < self.node_count(),
                k <= parents@.len(),
                forall|m: int|
                    0 <= m < parents@.len() ==> #[trigger] parents@[m].0 < self.edges().len()
                        && self.edges()[parents@[m].0 as int] == (parents@[m].1, id),
                forall|e: int|
                    0 <= e < self.edges().len() && (#[trigger] self.edges()[e]).1 == id ==> exists|
                        m: int,
                    |
                        0 <= m < parents@.len() && #[trigger] parents@[m].0 == e,
                start == old(trail)@,
                !start.contains(id),
                trail_ok(trail@, self.node_count()),
                start.len() < trail@.len(),
                trail@.subrange(0, start.len() as int) == start,
                trail@[start.len() as int] == id,
                js.len() == start.len() + 1 as int,
                rs.len() == start.len(),
                self.log_ok(*target, trail@, cjs, crs),
                cjs.last() == executor@,
                cjs.subrange(0, js.len() as int) == js,
                crs.subrange(0, rs.len() as int) == rs,
                all_ok(crs, 0, crs.len() as int),
                crs[start.len() as int] == Ok::<ApplyStatus, ApplyError>(status),
                result == fold_status(crs, start.len() as int, crs.len() as int),
                forall|m: int|
                    start.len() < m < trail@.len() ==> self.triggered(trail@, crs, m, *target),
                self.complete(trail@, crs, start.len() + 1 as int, trail@.len() as int, *target),
                forall|m: int|
                    0 <= m < k && self.pre_condition(#[trigger] parents@[m].0 as int).holds(*target)
                        && self.apply_condition(parents@[m].0 as int).holds(status)
                        ==> trail@.contains(parents@[m].1),
            decreases parents@.len() - k,
        {
            let (e, p) = parents[k];
            assert(parents@[k as int].0 < self.edges().len());
            let dep = &self.dependencies[e];
            if dep.apply_condition.check(status) && dep.pre_condition.check(target) {
                let ghost bt = trail@;
                let ghost bjs = cjs;
                let ghost brs = crs;
                proof {
                    lemma_trail_len(trail@, self.node_count());
                }
                let (sub, Ghost(njs), Ghost(nrs)) = self.apply_on_node(
                    p,
                    executor,
                    target,
                    trail,
                    Ghost(cjs),
                    Ghost(crs),
                );
                proof {
                    cjs = njs;
                    crs = nrs;
                    assert(trail@.subrange(0, start.len() as int) =~= trail@.subrange(
                        0,
                        bt.len() as int,
                    ).subrange(0, start.len() as int));
                    assert(trail@[start.len() as int] == trail@.subrange(
                        0,
                        bt.len() as int,
                    )[start.len() as int]);
                    assert(cjs.subrange(0, js.len() as int) =~= cjs.subrange(
                        0,
                        bjs.len() as int,
                    ).subrange(0, js.len() as int));
                    assert(crs.subrange(0, rs.len() as int) =~= crs.subrange(
                        0,
                        brs.len() as int,
                    ).subrange(0, rs.len() as int));
                    assert(crs[start.len() as int] == crs.subrange(
                        0,
                        brs.len() as int,
                    )[start.len() as int]);
                    assert forall|m: int|
                        start.len() < m < trail@.len() implies self.triggered(
                        trail@,
                        crs,
                        m,
                        *target,
                    ) by {
                        if m < bt.len() {
                            self.lemma_triggered_prefix(bt, trail@, brs, crs, m, *target);
                        } else if m == bt.len() {
                            let j = start.len() as int;
                            assert(self.edges()[e as int] == (trail@[m], trail@[j]));
                        }
                    }
                    assert(trail@.contains(p)) by {
                        if bt.contains(p) {
                            let x = choose|x: int| 0 <= x < bt.len() && bt[x] == p;
                            assert(trail@[x] == trail@.subrange(0, bt.len() as int)[x]);
                        } else {
                            assert(trail@[bt.len() as int] == p);
                        }
                    }
                    assert forall|m: int|
                        0 <= m < k && self.pre_condition(#[trigger] parents@[m].0 as int).holds(
                            *target,
                        ) && self.apply_condition(parents@[m].0 as int).holds(status)
                            implies trail@.contains(parents@[m].1) by {
                        assert(bt.contains(parents@[m].1));
                        let x = choose|x: int| 0 <= x < bt.len() && bt[x] == parents@[m].1;
                        assert(trail@[x] == trail@.subrange(0, bt.len() as int)[x]);
                    }
                    self.lemma_complete_prefix(
                        bt,
                        trail@,
                        brs,
                        crs,
                        start.len() + 1 as int,
                        bt.len() as int,
                        *target,
                    );
                    lemma_fold_prefix(brs, crs, start.len() as int, brs.len() as int);
                    lemma_fold_prefix(brs, crs, 0, brs.len() as int);
                    lemma_fold_split(crs, start.len() as int, brs.len() as int, crs.len() as int);
                }
                match sub {
                    Err(err) => {
                        return (Err(err), Ghost(cjs), Ghost(crs));
                    },
                    Ok(s) => {
                        proof {
                            assert forall|j: int, e2: int|
                                #![trigger trail@[j], self.edges()[e2]]
                                start.len() + 1 <= j < trail@.len() && 0 <= e2
                                    < self.edges().len() && self.edges()[e2].1 == trail@[j]
                                    && self.pre_condition(e2).holds(*target) && crs[j] is Ok
                                    && self.apply_condition(e2).holds(crs[j]->Ok_0)
                                    implies trail@.contains(self.edges()[e2].0) by {
                                if j >= bt.len() {
                                    assert(self.complete(
                                        trail@,
                                        crs,
                                        bt.len() as int,
                                        trail@.len() as int,
                                        *target,
                                    ));
                                }
                            }
                        }
                        result = result.add(s);
                    },
                }
            }
            k = k + 1;
        }
        proof {
            assert forall|j: int, e2: int|
                #![trigger trail@[j], self.edges()[e2]]
                start.len() <= j < trail@.len() && 0 <= e2 < self.edges().len()
                    && self.edges()[e2].1 == trail@[j] && self.pre_condition(e2).holds(*target)
                    && crs[j] is Ok && self.apply_condition(e2).holds(crs[j]->Ok_0)
                    implies trail@.contains(self.edges()[e2].0) by {
                if j == start.len() {
                    assert(self.edges()[e2].1 == id);
                    let m = choose|m: int| 0 <= m < parents@.len() && #[trigger] parents@[m].0 == e2;
                    assert(self.edges()[parents@[m].0 as int] == (parents@[m].1, id));
                }
            }
        }
        (Ok(result), Ghost(cjs), Ghost(crs))
    }

    /// Applies every root, in order of node index, each with the dependers
    /// that it leads to, and folds their outcomes.
    fn apply_roots(&self, executor: &mut Executor, target: &Target, trail: &mut Vec<usize>) -> (out:
        (Result<ApplyStatus, ApplyError>, Ghost<Seq<Seq<Seq<char>>>>, Ghost<Seq<Result<ApplyStatus, ApplyError>>>))
        requires
            old(trail)@.len() == 0,
        ensures
            self.traversal(final(trail)@, out.2@, *target),
            self.log_ok(*target, final(trail)@, out.1@, out.2@),
            out.1@[0] == old(executor)@,
            out.1@.last() == final(executor)@,
            out.0 is Ok ==> all_ok(out.2@, 0, out.2@.len() as int) && out.0 == Ok::<
                ApplyStatus,
                ApplyError,
            >(fold_status(out.2@, 0, out.2@.len() as int)) && (forall|n: usize|
                self.is_root(n) ==> final(trail)@.contains(n)) && self.complete(
                final(trail)@,
                out.2@,
                0,
                final(trail)@.len() as int,
                *target,
            ),
            out.0 is Err ==> final(trail)@.len() > 0 && out.0 == out.2@.last() && all_ok(
                out.2@,
                0,
                out.2@.len() - 1,
            ),
    {
        proof {
            use_type_invariant(self);
        }
        let ghost mut cjs = seq![executor@];
        let ghost mut crs = Seq::<Result<ApplyStatus, ApplyError>>::empty();
        let ghost j0 = executor@;
        let mut total = ApplyStatus::NotChanged;
        let mut i: usize = 0;
        while i < self.independent.len()
            invariant
                self.wf(),
                i <= self.node_count(),
                self.traversal(trail@, crs, *target),
                self.log_ok(*target, trail@, cjs, crs),
                cjs[0] == j0,
                j0 == old(executor)@,
                cjs.last() == executor@,
                all_ok(crs, 0, crs.len() as int),
                total == fold_status(crs, 0, crs.len() as int),
                self.complete(trail@, crs, 0, trail@.len() as int, *target),
                forall|n: usize| n < i && self.is_root(n) ==> trail@.contains(n),
            decreases self.node_count() - i,
        {
            if self.independent[i] {
                let ghost bt = trail@;
                let ghost bjs = cjs;
                let ghost brs = crs;
                let (sub, Ghost(njs), Ghost(nrs)) = self.apply_on_node(
                    i,
                    executor,
                    target,
                    trail,
                    Ghost(cjs),
                    Ghost(crs),
                );
                proof {
                    cjs = njs;
                    crs = nrs;
                    assert(cjs[0] == cjs.subrange(0, bjs.len() as int)[0]);
                    assert forall|k: int| 0 <= k < trail@.len() implies self.is_root(
                        #[trigger] trail@[k],
                    ) || self.triggered(trail@, crs, k, *target) by {
                        if k < bt.len() {
                            assert(trail@[k] == trail@.subrange(0, bt.len() as int)[k]);
                            if !self.is_root(trail@[k]) {
                                self.lemma_triggered_prefix(bt, trail@, brs, crs, k, *target);
                            }
                        }
                    }
                    assert forall|n: usize| n <= i && self.is_root(n) implies trail@.contains(n) by {
                        if n < i || bt.contains(n) {
                            let x = choose|x: int| 0 <= x < bt.len() && bt[x] == n;
                            assert(trail@[x] == trail@.subrange(0, bt.len() as int)[x]);
                        } else {
                            assert(trail@[bt.len() as int] == n);
                        }
                    }
                    self.lemma_complete_prefix(bt, trail@, brs, crs, 0, bt.len() as int, *target);
                    lemma_fold_prefix(brs, crs, 0, brs.len() as int);
                    lemma_fold_split(crs, 0, brs.len() as int, crs.len() as int);
                }
                match sub {
                    Err(e) => {
                        return (Err(e), Ghost(cjs), Ghost(crs));
                    },
                    Ok(s) => {
                        proof {
                            assert forall|j: int, e2: int|
                                #![trigger trail@[j], self.edges()[e2]]
                                0 <= j < trail@.len() && 0 <= e2 < self.edges().len()
                                    && self.edges()[e2].1 == trail@[j]
                                    && self.pre_condition(e2).holds(*target) && crs[j] is Ok
                                    && self.apply_condition(e2).holds(crs[j]->Ok_0)
                                    implies trail@.contains(self.edges()[e2].0) by {
                                if j >= bt.len() {
                                    assert(self.complete(
                                        trail@,
                                        crs,
                                        bt.len() as int,
                                        trail@.len() as int,
                                        *target,
                                    ));
                                }
                            }
                        }
                        total = total.add(s);
                    },
                }
            }
            i = i + 1;
        }
        (Ok(total), Ghost(cjs), Ghost(crs))
    }
}

impl<S: State> State for Graph<S> {
    /// A traversal applies a sequence of nodes `t`, each at most once and
    /// each a root or led to by a node applied before it; the journal passes
    /// through their states in that order. On success every root was applied,
    /// every depender that an applied node's edges let through was applied,
    /// and the outcome folds the nodes' outcomes. On failure the last node
    /// applied failed, with the error returned.
    open spec fn run(
        &self,
        target: Target,
        before: Seq<Seq<char>>,
        after: Seq<Seq<char>>,
        r: Result<ApplyStatus, ApplyError>,
    ) -> bool {
        exists|t: Seq<usize>, js: Seq<Seq<Seq<char>>>, rs: Seq<Result<ApplyStatus, ApplyError>>|
            #[trigger] self.log_ok(target, t, js, rs) && self.traversal(t, rs, target) && js[0]
                == before && js.last() == after && (r is Ok ==> all_ok(rs, 0, rs.len() as int)
                && r == Ok::<ApplyStatus, ApplyError>(fold_status(rs, 0, rs.len() as int))
                && (forall|n: usize| self.is_root(n) ==> t.contains(n)) && self.complete(
                t,
                rs,
                0,
                t.len() as int,
                target,
            )) && (r is Err ==> t.len() > 0 && r == rs.last() && all_ok(rs, 0, rs.len() - 1))
    }

    open spec fn label(&self) -> Seq<char> {
        self.label_of()
    }

    fn apply(&self, executor: &mut Executor, target: &Target) -> (r: Result<ApplyStatus, ApplyError>) {
        let mut trail: Vec<usize> = Vec::new();
        let (r, Ghost(js), Ghost(rs)) = self.apply_roots(executor, target, &mut trail);
        assert(self.log_ok(*target, trail@, js, rs));
        r
    }

    fn name(&self) -> (r: String) {
        self.name.clone()
    }
}

/// Once `a` depends on `b` and `b` on `c`, `c` cannot depend on `a`: the
/// edge would close a cycle, so `add_dependency(c, a, ..)` fails, and the
/// graph holds no edge from `c` to `a`.
pub proof fn lemma_cycle_rejected<S>(g: Graph<S>, a: usize, b: usize, c: usize, i: int, j: int)
    requires
        0 <= i < g.edges().len(),
        0 <= j < g.edges().len(),
        g.edges()[i] == (a, b),
        g.edges()[j] == (b, c),
        acyclic(g.edges()),
    ensures
        reaches(g.edges(), a, c),
        !g.edges().contains((c, a)),
{
    let edges = g.edges();
    assert(reaches_within(edges, edges[j].1, c, 0));
    assert(edges[j].0 == b);
    assert(reaches_within(edges, b, c, 1));
    assert(reaches_within(edges, edges[i].1, c, 1));
    assert(edges[i].0 == a);
    assert(reaches_within(edges, a, c, 2));
    if edges.contains((c, a)) {
        let k = choose|k: int| 0 <= k < edges.len() && edges[k] == (c, a);
        assert(!reaches(edges, edges[k].1, edges[k].0));
    }
}

/// A node that depends on another is no traversal entry point, whether or
/// not any root leads to it.
pub proof fn lemma_depender_not_root<S>(g: Graph<S>, node: usize, other: usize)
    requires
        g.edges().contains((node, other)),
    ensures
        !g.is_root(node),
{
    let k = choose|k: int| 0 <= k < g.edges().len() && g.edges()[k] == (node, other);
    assert(g.edges()[k].0 == node);
}

} // verus!
