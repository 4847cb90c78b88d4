//! The decisions of evaluating a computation graph: which node to look at,
//! which dependency to queue, when a node may be expanded and executed, and
//! which evaluations may be dropped once nothing needs them any more.
//!
//! Expanding and executing components is work done by the caller: the
//! scheduler says what to do next and is told what came of it.

use vstd::prelude::*;
use std::collections::{HashMap, HashSet};

verus! {

broadcast use vstd::std_specs::hash::group_hash_axioms;

/// A node of the graph with the ids of the nodes its arguments come from,
/// in the order in which its arguments are looked at.
pub open spec fn entry_view(e: (u32, Vec<u32>)) -> (u32, Seq<u32>) {
    (e.0, e.1@)
}

pub open spec fn entries_view(entries: Seq<(u32, Vec<u32>)>) -> Seq<(u32, Seq<u32>)> {
    entries.map_values(|e: (u32, Vec<u32>)| entry_view(e))
}

/// The graph after each entry in turn is put into it (a later entry for the
/// same id replaces an earlier one).
pub open spec fn extend_graph(g: Map<u32, Seq<u32>>, entries: Seq<(u32, Seq<u32>)>) -> Map<
    u32,
    Seq<u32>,
>
    decreases entries.len(),
{
    if entries.len() == 0 {
        g
    } else {
        extend_graph(g, entries.drop_last()).insert(entries.last().0, entries.last().1)
    }
}

pub open spec fn distinct_ids(entries: Seq<(u32, Vec<u32>)>) -> bool {
    forall|i: int, j: int|
        0 <= i < entries.len() && 0 <= j < entries.len() && i != j ==> #[trigger] entries[i].0
            != #[trigger] entries[j].0
}

/// For every node that some node takes an argument from, the nodes that
/// take an argument from it.
pub open spec fn spec_parents(g: Map<u32, Seq<u32>>) -> Map<u32, Set<u32>> {
    Map::new(
        |s: u32| exists|n: u32| g.contains_key(n) && g[n].contains(s),
        |s: u32| Set::new(|n: u32| g.contains_key(n) && g[n].contains(s)),
    )
}

/// Node `a` has no consumer left once `node` no longer needs it, and its
/// evaluation is not to be released.
pub open spec fn unneeded_after(
    parents: Map<u32, Set<u32>>,
    release_nodes: Set<u32>,
    node: u32,
    a: u32,
) -> bool {
    parents[a].remove(node).is_empty() && !release_nodes.contains(a)
}

/// What the caller does next.
#[derive(Debug, Clone, Copy, PartialEq, Eq, Structural)]
pub enum StepAction {
    /// The traversal stack is empty: every node asked for is evaluated.
    Finished,
    /// The node on top of the stack has no component in the graph.
    MissingComponent(u32),
    /// The node on top of the stack takes an argument from this node, which
    /// has no evaluation yet; it now stands on top of the stack.
    DependencyQueued(u32),
    /// Every argument of this node is evaluated: expand the node and report
    /// the expansion with `record_expansion`.
    Expand(u32),
}

/// What the caller does after an expansion.
#[derive(Debug, Clone, Copy, PartialEq, Eq, Structural)]
pub enum ExpansionAction {
    /// The expansion raised the largest node id: look at the stack again.
    Revisit,
    /// The node is off the stack: execute it and report with `record_execution`.
    Execute(u32),
}

/// An executed node takes an argument from a node whose consumers are not
/// tracked (a node that appeared through an expansion).
#[derive(Debug, Clone, Copy, PartialEq, Eq, Structural)]
pub struct UntrackedArgument(pub u32);

enum Phase {
    Exploring,
    Expanding { node: u32, arguments: Vec<u32> },
    Executing { node: u32, arguments: Vec<u32> },
}

/// Where the scheduler stands in the protocol with its caller.
pub enum PhaseView {
    Exploring,
    Expanding(u32, Seq<u32>),
    Executing(u32, Seq<u32>),
}

/// The state of evaluating a computation graph.
pub struct GraphScheduler {
    graph: HashMap<u32, Vec<u32>>,
    parents: HashMap<u32, HashSet<u32>>,
    evaluated: HashSet<u32>,
    release_nodes: HashSet<u32>,
    traversal: Vec<u32>,
    maximum_id: u32,
    phase: Phase,
}

fn copy_ids(v: &Vec<u32>) -> (r: Vec<u32>)
    ensures
        r@ == v@,
{
    let mut r: Vec<u32> = Vec::new();
    for i in 0..v.len()
        invariant
            r@ == v@.subrange(0, i as int),
    {
        r.push(v[i]);
    }
    assert(v@.subrange(0, v.len() as int) =~= v@);
    r
}


/// The ids in a graph built from entries are the ids of the entries.
proof fn lemma_extend_dom(entries: Seq<(u32, Seq<u32>)>, k: u32)
    ensures
        extend_graph(Map::empty(), entries).contains_key(k) <==> exists|i: int|
            0 <= i < entries.len() && entries[i].0 == k,
    decreases entries.len(),
{
    if entries.len() > 0 {
        let prefix = entries.drop_last();
        lemma_extend_dom(prefix, k);
        if extend_graph(Map::empty(), prefix).contains_key(k) {
            let i = choose|i: int| 0 <= i < prefix.len() && prefix[i].0 == k;
            assert(entries[i].0 == k);
        }
        if exists|i: int| 0 <= i < entries.len() && entries[i].0 == k {
            let i = choose|i: int| 0 <= i < entries.len() && entries[i].0 == k;
            if i < entries.len() - 1 {
                assert(prefix[i].0 == k);
            }
        }
    }
}

proof fn lemma_push_contains(s: Seq<u32>, x: u32, y: u32)
    ensures
        s.push(x).contains(y) <==> s.contains(y) || x == y,
{
    if s.contains(y) {
        let i = choose|i: int| 0 <= i < s.len() && s[i] == y;
        assert(s.push(x)[i] == y);
    }
    if x == y {
        assert(s.push(x)[s.len() as int] == y);
    }
    if s.push(x).contains(y) {
        let i = choose|i: int| 0 <= i < s.push(x).len() && s.push(x)[i] == y;
        if i < s.len() {
            assert(s[i] == y);
        }
    }
}

/// Giving node `id` one more argument source `a[j]` adds `id` to the
/// consumers of `a[j]` and changes nothing else.
proof fn lemma_parents_add_edge(g: Map<u32, Seq<u32>>, id: u32, a: Seq<u32>, j: int)
    requires
        0 <= j < a.len(),
    ensures
        ({
            let p = spec_parents(g.insert(id, a.subrange(0, j)));
            spec_parents(g.insert(id, a.subrange(0, j + 1))) == p.insert(
                a[j],
                (if p.contains_key(a[j]) {
                    p[a[j]]
                } else {
                    Set::empty()
                }).insert(id),
            )
        }),
{
    let g0 = g.insert(id, a.subrange(0, j));
    let g1 = g.insert(id, a.subrange(0, j + 1));
    let p0 = spec_parents(g0);
    let p1 = spec_parents(g1);
    let s = a[j];
    let rhs = p0.insert(
        s,
        (if p0.contains_key(s) {
            p0[s]
        } else {
            Set::empty()
        }).insert(id),
    );
    assert(a.subrange(0, j + 1) =~= a.subrange(0, j).push(s));
    assert forall|n: u32, t: u32|
        g1.contains_key(n) && g1[n].contains(t) <==> (g0.contains_key(n) && g0[n].contains(t)) || (
        n == id && t == s) by {
        if n == id {
            lemma_push_contains(a.subrange(0, j), s, t);
        }
    }
    assert forall|t: u32| p1.contains_key(t) <==> rhs.contains_key(t) by {
        if p1.contains_key(t) {
            let n = choose|n: u32| g1.contains_key(n) && g1[n].contains(t);
            if !(n == id && t == s) {
                assert(g0.contains_key(n) && g0[n].contains(t));
            }
        }
        if rhs.contains_key(t) && t != s {
            let n = choose|n: u32| g0.contains_key(n) && g0[n].contains(t);
            assert(g1.contains_key(n) && g1[n].contains(t));
        }
        if t == s {
            assert(g1.contains_key(id) && g1[id].contains(s));
        }
    }
    assert forall|t: u32| p1.contains_key(t) implies p1[t] =~= rhs[t] by {
        if t != s {
            assert forall|n: u32| p1[t].contains(n) <==> p0[t].contains(n) by {}
        } else {
            assert forall|n: u32| p1[t].contains(n) <==> rhs[t].contains(n) by {
                if p0.contains_key(s) {
                } else {
                    if n != id && g1.contains_key(n) && g1[n].contains(s) {
                        assert(g0.contains_key(n) && g0[n].contains(s));
                    }
                }
            }
        }
    }
    assert(p1 =~= rhs);
}

fn id_set(v: &Vec<u32>) -> (s: HashSet<u32>)
    ensures
        s@ == v@.to_set(),
{
    let mut s: HashSet<u32> = HashSet::new();
    for i in 0..v.len()
        invariant
            s@ == v@.subrange(0, i as int).to_set(),
    {
        let ghost before = v@.subrange(0, i as int);
        s.insert(v[i]);
        proof {
            assert(v@.subrange(0, i + 1) =~= before.push(v@[i as int]));
            assert forall|x: u32| s@.contains(x) <==> v@.subrange(0, i + 1).to_set().contains(x) by {
                lemma_push_contains(before, v@[i as int], x);
            }
        }
        assert(s@ =~= v@.subrange(0, i + 1).to_set());
    }
    assert(v@.subrange(0, v.len() as int) =~= v@);
    s
}

impl GraphScheduler {
    /// Each node of the graph with the ids its arguments come from.
    pub closed spec fn graph_view(&self) -> Map<u32, Seq<u32>> {
        Map::new(|k: u32| self.graph@.contains_key(k), |k: u32| self.graph@[k]@)
    }

    /// For each node that is tracked, the nodes that still need its evaluation.
    pub closed spec fn parents_view(&self) -> Map<u32, Set<u32>> {
        Map::new(|k: u32| self.parents@.contains_key(k), |k: u32| self.parents@[k]@)
    }

    /// The nodes that have an evaluation.
    pub closed spec fn evaluated_view(&self) -> Set<u32> {
        self.evaluated@
    }

    /// The nodes whose evaluations are released and never dropped.
    pub closed spec fn release_view(&self) -> Set<u32> {
        self.release_nodes@
    }

    /// The stack of nodes still to evaluate; its top is the last element.
    pub closed spec fn traversal_view(&self) -> Seq<u32> {
        self.traversal@
    }

    pub closed spec fn maximum_id_view(&self) -> u32 {
        self.maximum_id
    }

    pub closed spec fn phase_view(&self) -> PhaseView {
        match self.phase {
            Phase::Exploring => PhaseView::Exploring,
            Phase::Expanding { node, arguments } => PhaseView::Expanding(node, arguments@),
            Phase::Executing { node, arguments } => PhaseView::Executing(node, arguments@),
        }
    }

    /// While a node is being expanded it is still on top of the stack, and
    /// while it is being expanded or executed every argument it was found
    /// ready with has an evaluation.
    pub closed spec fn wf(&self) -> bool {
        match self.phase {
            Phase::Expanding { node, arguments } => {
                &&& self.traversal@.len() > 0
                &&& self.traversal@.last() == node
                &&& forall|i: int|
                    0 <= i < arguments@.len() ==> self.evaluated@.contains(#[trigger] arguments@[i])
            },
            Phase::Executing { node, arguments } => forall|i: int|
                0 <= i < arguments@.len() ==> self.evaluated@.contains(#[trigger] arguments@[i]),
            Phase::Exploring => true,
        }
    }

    /// The nodes of the graph that are neither evaluated nor on the stack:
    /// a measure that each newly queued dependency lowers by one.
    pub open spec fn untouched_nodes(&self) -> Set<u32> {
        self.graph_view().dom().filter(
            |n: u32| !self.evaluated_view().contains(n) && !self.traversal_view().contains(n),
        )
    }

    /// The graph, parents, evaluations, release set and largest id of two states agree.
    pub open spec fn same_store(&self, other: &Self) -> bool {
        &&& self.graph_view() == other.graph_view()
        &&& self.parents_view() == other.parents_view()
        &&& self.evaluated_view() == other.evaluated_view()
        &&& self.release_view() == other.release_view()
        &&& self.maximum_id_view() == other.maximum_id_view()
    }

    /// Looks at the node on top of the stack. If one of its arguments has no
    /// evaluation, the first such argument is pushed; if all have one, the
    /// node is to be expanded.
    pub fn step(&mut self) -> (r: StepAction)
        requires
            old(self).wf(),
            old(self).phase_view() == PhaseView::Exploring,
        ensures
            final(self).wf(),
            final(self).same_store(&*old(self)),
            old(self).untouched_nodes().finite(),
            forall|a: u32|
                r == StepAction::DependencyQueued(a) && old(self).graph_view().contains_key(a)
                    && !old(self).traversal_view().contains(a) ==> old(
                    self,
                ).untouched_nodes().contains(a) && final(self).untouched_nodes() == old(
                    self,
                ).untouched_nodes().remove(a) && final(self).untouched_nodes().len() + 1 == old(
                    self,
                ).untouched_nodes().len(),
            ({
                let t = old(self).traversal_view();
                let g = old(self).graph_view();
                let ev = old(self).evaluated_view();
                if t.len() == 0 {
                    &&& r == StepAction::Finished
                    &&& final(self).traversal_view() == t
                    &&& final(self).phase_view() == PhaseView::Exploring
                } else if !g.contains_key(t.last()) {
                    &&& r == StepAction::MissingComponent(t.last())
                    &&& final(self).traversal_view() == t
                    &&& final(self).phase_view() == PhaseView::Exploring
                } else if exists|i: int|
                    0 <= i < g[t.last()].len() && !ev.contains(#[trigger] g[t.last()][i]) {
                    exists|i: int|
                        {
                            &&& 0 <= i < g[t.last()].len()
                            &&& !ev.contains(#[trigger] g[t.last()][i])
                            &&& forall|j: int| 0 <= j < i ==> ev.contains(g[t.last()][j])
                            &&& r == StepAction::DependencyQueued(g[t.last()][i])
                            &&& final(self).traversal_view() == t.push(g[t.last()][i])
                            &&& final(self).phase_view() == PhaseView::Exploring
                        }
                } else {
                    &&& r == StepAction::Expand(t.last())
                    &&& forall|i: int| 0 <= i < g[t.last()].len() ==> ev.contains(g[t.last()][i])
                    &&& final(self).traversal_view() == t
                    &&& final(self).phase_view() == PhaseView::Expanding(t.last(), g[t.last()])
                }
            }),
    {
        proof {
            assert(self.graph_view().dom() =~= self.graph@.dom());
        }
        let n = self.traversal.len();
        if n == 0 {
            return StepAction::Finished;
        }
        let node_id = self.traversal[n - 1];
        let arguments: &Vec<u32> = match self.graph.get(&node_id) {
            Some(a) => a,
            None => return StepAction::MissingComponent(node_id),
        };
        // discover if any dependency is not yet computed
        let mut i: usize = 0;
        while i < arguments.len()
            invariant
                *self == *old(self),
                old(self).untouched_nodes().finite(),
                old(self).phase_view() == PhaseView::Exploring,
                n == self.traversal@.len(),
                n > 0,
                self.graph_view().contains_key(node_id),
                node_id == self.traversal@[n - 1],
                i <= arguments@.len(),
                arguments@ == self.graph_view()[node_id],
                forall|j: int| 0 <= j < i ==> self.evaluated@.contains(arguments@[j]),
            decreases arguments@.len() - i,
        {
            let source_node_id = arguments[i];
            if !self.evaluated.contains(&source_node_id) {
                let ghost before = self.traversal@;
                self.traversal.push(source_node_id);
                assert(arguments@[i as int] == source_node_id);
                proof {
                    assert forall|x: u32| self.traversal@.contains(x) <==> before.contains(x)
                        || x == source_node_id by {
                        lemma_push_contains(before, source_node_id, x);
                    }
                    if old(self).graph_view().contains_key(source_node_id) && !before.contains(
                        source_node_id,
                    ) {
                        assert(self.untouched_nodes() =~= old(self).untouched_nodes().remove(
                            source_node_id,
                        ));
                    }
                }
                return StepAction::DependencyQueued(source_node_id);
            }
            i = i + 1;
        }
        let pending = copy_ids(arguments);
        self.phase = Phase::Expanding { node: node_id, arguments: pending };
        StepAction::Expand(node_id)
    }

    /// The largest node id known to the graph.
    pub fn maximum_id(&self) -> (m: u32)
        ensures
            m == self.maximum_id_view(),
    {
        self.maximum_id
    }

    /// Takes in the expansion of the node that `step` asked to expand: the
    /// components it adds or replaces and the largest node id after it. If
    /// the largest id changed, the node is looked at again; otherwise it is
    /// taken off the stack and is to be executed, with the arguments it had
    /// when it was found ready.
    pub fn record_expansion(&mut self, components: Vec<(u32, Vec<u32>)>, maximum_id: u32) -> (r:
        ExpansionAction)
        requires
            old(self).wf(),
            old(self).phase_view() is Expanding,
        ensures
            final(self).wf(),
            final(self).graph_view() == extend_graph(
                old(self).graph_view(),
                entries_view(components@),
            ),
            final(self).parents_view() == old(self).parents_view(),
            final(self).evaluated_view() == old(self).evaluated_view(),
            final(self).release_view() == old(self).release_view(),
            ({
                let node = old(self).phase_view()->Expanding_0;
                let arguments = old(self).phase_view()->Expanding_1;
                if maximum_id != old(self).maximum_id_view() {
                    &&& r == ExpansionAction::Revisit
                    &&& final(self).maximum_id_view() == maximum_id
                    &&& final(self).traversal_view() == old(self).traversal_view()
                    &&& final(self).phase_view() == PhaseView::Exploring
                } else {
                    &&& r == ExpansionAction::Execute(node)
                    &&& forall|i: int|
                        0 <= i < arguments.len() ==> final(self).evaluated_view().contains(
                            #[trigger] arguments[i],
                        )
                    &&& final(self).maximum_id_view() == old(self).maximum_id_view()
                    &&& final(self).traversal_view() == old(self).traversal_view().drop_last()
                    &&& final(self).phase_view() == PhaseView::Executing(node, arguments)
                }
            }),
    {
        let ghost ev = entries_view(components@);
        let ghost g0 = self.graph_view();
        let n = components.len();
        assert(ev.subrange(0, 0) =~= Seq::<(u32, Seq<u32>)>::empty());
        for i in 0..n
            invariant
                n == components@.len(),
                ev == entries_view(components@),
                self.graph_view() == extend_graph(g0, ev.subrange(0, i as int)),
                self.parents_view() == old(self).parents_view(),
                self.evaluated_view() == old(self).evaluated_view(),
                self.release_view() == old(self).release_view(),
                self.maximum_id_view() == old(self).maximum_id_view(),
                self.traversal_view() == old(self).traversal_view(),
                self.phase_view() == old(self).phase_view(),
                self.wf(),
        {
            let id = components[i].0;
            let args = copy_ids(&components[i].1);
            let ghost args_view = args@;
            let ghost before = self.graph_view();
            self.graph.insert(id, args);
            proof {
                assert(ev.subrange(0, i + 1).drop_last() =~= ev.subrange(0, i as int));
                assert(ev.subrange(0, i + 1).last() == (id, args_view));
                assert(self.graph_view() =~= before.insert(id, args_view));
            }
        }
        assert(ev.subrange(0, n as int) =~= ev);
        let mut phase = Phase::Exploring;
        std::mem::swap(&mut phase, &mut self.phase);
        match phase {
            Phase::Expanding { node, arguments } => {
                if maximum_id != self.maximum_id {
                    self.maximum_id = maximum_id;
                    ExpansionAction::Revisit
                } else {
                    self.traversal.pop();
                    self.phase = Phase::Executing { node, arguments };
                    ExpansionAction::Execute(node)
                }
            },
            _ => {
                self.phase = phase;
                ExpansionAction::Revisit
            },
        }
    }

    /// Records that the node handed out by `record_expansion` has been
    /// executed. The node gains an evaluation, and each node it took an
    /// argument from (as the arguments were when it was found ready) loses it
    /// as a consumer; an argument node left with no consumer, and not to be
    /// released, loses its evaluation and is listed in the result, once for
    /// each argument that names it. An argument node whose consumers are not
    /// tracked is an error, and then nothing changes.
    pub fn record_execution(&mut self) -> (r: Result<Vec<u32>, UntrackedArgument>)
        requires
            old(self).wf(),
            old(self).phase_view() is Executing,
        ensures
            final(self).wf(),
            ({
                let node = old(self).phase_view()->Executing_0;
                let args = old(self).phase_view()->Executing_1;
                let p = old(self).parents_view();
                let rel = old(self).release_view();
                match r {
                    Err(UntrackedArgument(a)) => {
                        &&& exists|i: int|
                            0 <= i < args.len() && args[i] == a && !p.contains_key(a) && forall|j: int|
                                0 <= j < i ==> p.contains_key(#[trigger] args[j])
                        &&& final(self).same_store(&*old(self))
                        &&& final(self).traversal_view() == old(self).traversal_view()
                        &&& final(self).phase_view() == old(self).phase_view()
                    },
                    Ok(discarded) => {
                        &&& forall|i: int| 0 <= i < args.len() ==> p.contains_key(#[trigger] args[i])
                        &&& final(self).parents_view() == Map::new(
                            |k: u32| p.contains_key(k),
                            |k: u32|
                                if args.contains(k) {
                                    p[k].remove(node)
                                } else {
                                    p[k]
                                },
                        )
                        &&& final(self).evaluated_view() == old(self).evaluated_view().insert(
                            node,
                        ).difference(
                            Set::new(|a: u32| args.contains(a) && unneeded_after(p, rel, node, a)),
                        )
                        &&& discarded@ == args.filter(|a: u32| unneeded_after(p, rel, node, a))
                        &&& forall|x: u32|
                            old(self).evaluated_view().contains(x) && rel.contains(x)
                                ==> #[trigger] final(self).evaluated_view().contains(x)
                        &&& forall|d: u32|
                            #[trigger] discarded@.contains(d) ==> final(self).parents_view().contains_key(
                                d,
                            ) && final(self).parents_view()[d].is_empty() && !rel.contains(d)
                        &&& final(self).graph_view() == old(self).graph_view()
                        &&& final(self).release_view() == rel
                        &&& final(self).maximum_id_view() == old(self).maximum_id_view()
                        &&& final(self).traversal_view() == old(self).traversal_view()
                        &&& final(self).phase_view() == PhaseView::Exploring
                    },
                }
            }),
    {
        let ghost p = self.parents_view();
        let ghost rel = self.release_view();
        let ghost ev0 = self.evaluated_view();
        let mut phase = Phase::Exploring;
        std::mem::swap(&mut phase, &mut self.phase);
        let (node, arguments) = match phase {
            Phase::Executing { node, arguments } => (node, arguments),
            other => {
                self.phase = other;
                return Ok(Vec::new());
            },
        };
        let ghost args = arguments@;
        assert(forall|j: int| 0 <= j < args.len() ==> self.evaluated@.contains(#[trigger] args[j]));
        let n = arguments.len();
        // every argument node must have its consumers tracked
        let mut i: usize = 0;
        while i < n
            invariant
                i <= n,
                n == arguments@.len(),
                args == arguments@,
                p == self.parents_view(),
                self.graph == old(self).graph,
                self.parents == old(self).parents,
                self.evaluated == old(self).evaluated,
                self.release_nodes == old(self).release_nodes,
                self.traversal == old(self).traversal,
                self.maximum_id == old(self).maximum_id,
                self.phase == Phase::Exploring,
                old(self).phase_view() == PhaseView::Executing(node, args),
                forall|j: int| 0 <= j < args.len() ==> self.evaluated@.contains(#[trigger] args[j]),
                forall|j: int| 0 <= j < i ==> p.contains_key(#[trigger] args[j]),
            decreases n - i,
        {
            if !self.parents.contains_key(&arguments[i]) {
                let a = arguments[i];
                assert(args[i as int] == a && !p.contains_key(a));
                self.phase = Phase::Executing { node, arguments };
                assert(exists|i: int|
                            0 <= i < args.len() && args[i] == a && !p.contains_key(a) && forall|j: int|
                                0 <= j < i ==> p.contains_key(#[trigger] args[j]));
                assert(old(self).phase_view()->Executing_1 == args);
                return Err(UntrackedArgument(a));
            }
            i = i + 1;
        }
        self.evaluated.insert(node);
        let mut discarded: Vec<u32> = Vec::new();
        let ghost pred = |a: u32| unneeded_after(p, rel, node, a);
        assert(args.subrange(0, 0) =~= Seq::<u32>::empty());
        assert(self.parents_view() =~= Map::new(
            |k: u32| p.contains_key(k),
            |k: u32|
                if args.subrange(0, 0).contains(k) {
                    p[k].remove(node)
                } else {
                    p[k]
                },
        ));
        assert(self.evaluated@ =~= ev0.insert(node).difference(
            Set::new(|a: u32| args.subrange(0, 0).contains(a) && pred(a)),
        ));
        proof {
            reveal_with_fuel(Seq::<_>::filter, 1);
        }
        for i in 0..n
            invariant
                n == arguments@.len(),
                args == arguments@,
                pred == (|a: u32| unneeded_after(p, rel, node, a)),
                rel == self.release_nodes@,
                forall|j: int| 0 <= j < n ==> p.contains_key(#[trigger] args[j]),
                self.parents_view() == Map::new(
                    |k: u32| p.contains_key(k),
                    |k: u32|
                        if args.subrange(0, i as int).contains(k) {
                            p[k].remove(node)
                        } else {
                            p[k]
                        },
                ),
                self.evaluated@ == ev0.insert(node).difference(
                    Set::new(|a: u32| args.subrange(0, i as int).contains(a) && pred(a)),
                ),
                discarded@ == args.subrange(0, i as int).filter(pred),
                self.graph == old(self).graph,
                self.release_nodes == old(self).release_nodes,
                self.traversal == old(self).traversal,
                self.maximum_id == old(self).maximum_id,
                self.phase == Phase::Exploring,
        {
            let a = arguments[i];
            let ghost before = self.parents_view();
            let ghost prefix = args.subrange(0, i as int);
            assert(args.subrange(0, i + 1) =~= prefix.push(a));
            assert(p.contains_key(args[i as int]));
            let ghost hm = self.parents@;
            assert(before.contains_key(a));
            assert(hm.contains_key(a));
            let mut consumers = match self.parents.remove(&a) {
                Some(c) => c,
                None => HashSet::new(),
            };
            assert(consumers@ == before[a]);
            consumers.remove(&node);
            assert(consumers@ =~= p[a].remove(node));
            let empty = consumers.is_empty();
            self.parents.insert(a, consumers);
            assert(self.parents@ == hm.remove(a).insert(a, consumers));
            proof {
                assert forall|k: u32| args.subrange(0, i + 1).contains(k) <==> prefix.contains(k) || k == a by {
                    lemma_push_contains(prefix, a, k);
                }
                assert(self.parents_view() =~= Map::new(
                    |k: u32| p.contains_key(k),
                    |k: u32|
                        if args.subrange(0, i + 1).contains(k) {
                            p[k].remove(node)
                        } else {
                            p[k]
                        },
                )) by {
                    assert forall|k: u32| #[trigger] self.parents_view().contains_key(k) implies
                        self.parents_view()[k] =~= (if args.subrange(0, i + 1).contains(k) {
                            p[k].remove(node)
                        } else {
                            p[k]
                        }) by {
                        if k == a {
                            assert(self.parents@[k]@ == consumers@);
                        } else {
                            assert(self.parents@[k] == hm[k]);
                            assert(self.parents_view()[k] == before[k]);
                        }
                    }
                }
                assert(empty == p[a].remove(node).is_empty());
            }
            if empty && !self.release_nodes.contains(&a) {
                self.evaluated.remove(&a);
                discarded.push(a);
            }
            proof {
                reveal_with_fuel(Seq::<_>::filter, 1);
                assert(args.subrange(0, i + 1).drop_last() =~= prefix);
                assert(pred(a) == (empty && !rel.contains(a)));
                assert(self.evaluated@ =~= ev0.insert(node).difference(
                    Set::new(|x: u32| args.subrange(0, i + 1).contains(x) && pred(x)),
                ));
            }
        }
        assert(args.subrange(0, n as int) =~= args);
        proof {
            assert forall|d: u32| #[trigger] discarded@.contains(d) implies self.parents_view().contains_key(d)
                && self.parents_view()[d].is_empty() && !rel.contains(d) by {
                broadcast use vstd::seq_lib::group_filter_ensures;
                args.lemma_filter_contains_rev(pred, d);
                let k = choose|k: int| 0 <= k < discarded@.len() && discarded@[k] == d;
                assert(pred(discarded@[k]));
                assert(args.contains(d));
            }
        }
        Ok(discarded)
    }

    /// Starts the evaluation of `graph`: the nodes in `sinks` are pushed on
    /// the stack in order, the nodes in `evaluated` already have
    /// evaluations, the nodes in `release_nodes` are to be released, and
    /// the largest node id is the largest id of the graph (0 for an empty graph).
    pub fn new(
        graph: Vec<(u32, Vec<u32>)>,
        sinks: Vec<u32>,
        evaluated: Vec<u32>,
        release_nodes: Vec<u32>,
    ) -> (s: Self)
        requires
            distinct_ids(graph@),
        ensures
            s.wf(),
            s.graph_view() == extend_graph(Map::empty(), entries_view(graph@)),
            s.parents_view() == spec_parents(s.graph_view()),
            s.evaluated_view() == evaluated@.to_set(),
            s.release_view() == release_nodes@.to_set(),
            s.traversal_view() == sinks@,
            s.phase_view() == PhaseView::Exploring,
            graph@.len() == 0 ==> s.maximum_id_view() == 0,
            graph@.len() > 0 ==> s.graph_view().contains_key(s.maximum_id_view()),
            forall|k: u32| s.graph_view().contains_key(k) ==> k <= s.maximum_id_view(),
    {
        let ghost ev = entries_view(graph@);
        let mut g: HashMap<u32, Vec<u32>> = HashMap::new();
        let mut parents: HashMap<u32, HashSet<u32>> = HashMap::new();
        let mut maximum_id: u32 = 0;
        let n = graph.len();
        assert(Map::new(|k: u32| g@.contains_key(k), |k: u32| g@[k]@) =~= extend_graph(
            Map::empty(),
            ev.subrange(0, 0),
        ));
        assert(Map::new(|k: u32| parents@.contains_key(k), |k: u32| parents@[k]@) =~= spec_parents(
            extend_graph(Map::empty(), ev.subrange(0, 0)),
        ));
        for i in 0..n
            invariant
                n == graph@.len(),
                distinct_ids(graph@),
                ev == entries_view(graph@),
                Map::new(|k: u32| g@.contains_key(k), |k: u32| g@[k]@) == extend_graph(
                    Map::empty(),
                    ev.subrange(0, i as int),
                ),
                Map::new(|k: u32| parents@.contains_key(k), |k: u32| parents@[k]@) == spec_parents(
                    extend_graph(Map::empty(), ev.subrange(0, i as int)),
                ),
                i == 0 ==> maximum_id == 0,
                i > 0 ==> exists|k: int| 0 <= k < i && graph@[k].0 == maximum_id,
                forall|k: int| 0 <= k < i ==> graph@[k].0 <= maximum_id,
        {
            let id = graph[i].0;
            let args = copy_ids(&graph[i].1);
            let ghost e = extend_graph(Map::empty(), ev.subrange(0, i as int));
            proof {
                lemma_extend_dom(ev.subrange(0, i as int), id);
                if e.contains_key(id) {
                    let k = choose|k: int| 0 <= k < i && ev.subrange(0, i as int)[k].0 == id;
                    assert(graph@[k].0 == graph@[i as int].0);
                }
                assert(args@.subrange(0, 0) =~= Seq::<u32>::empty());
                assert(e.insert(id, args@.subrange(0, 0)) =~= e.insert(id, Seq::empty()));
                assert(spec_parents(e.insert(id, Seq::empty())) =~= spec_parents(e)) by {
                    assert forall|t: u32| #[trigger] spec_parents(e.insert(id, Seq::empty())).contains_key(t)
                        implies spec_parents(e).contains_key(t) by {
                        let m = choose|m: u32| e.insert(id, Seq::empty()).contains_key(m) && e.insert(id, Seq::empty())[m].contains(t);
                        assert(m != id);
                    }
                    assert forall|t: u32| #[trigger] spec_parents(e).contains_key(t)
                        implies spec_parents(e.insert(id, Seq::empty())).contains_key(t) by {
                        let m = choose|m: u32| e.contains_key(m) && e[m].contains(t);
                        assert(m != id);
                        assert(e.insert(id, Seq::<u32>::empty())[m] == e[m]);
                        assert(e.insert(id, Seq::<u32>::empty()).contains_key(m));
                        assert(e.insert(id, Seq::<u32>::empty())[m].contains(t));
                    }
                    assert forall|t: u32| #[trigger] spec_parents(e).contains_key(t)
                        implies spec_parents(e.insert(id, Seq::empty()))[t] =~= spec_parents(e)[t] by {
                        assert forall|m: u32| spec_parents(e.insert(id, Seq::empty()))[t].contains(m)
                            <==> spec_parents(e)[t].contains(m) by {
                            if m == id {
                            }
                        }
                    }
                }
            }
            for j in 0..args.len()
                invariant
                    !e.contains_key(id),
                    Map::new(|k: u32| parents@.contains_key(k), |k: u32| parents@[k]@) == spec_parents(
                        e.insert(id, args@.subrange(0, j as int)),
                    ),
            {
                let src = args[j];
                let ghost before = Map::new(|k: u32| parents@.contains_key(k), |k: u32| parents@[k]@);
                let mut consumers = match parents.remove(&src) {
                    Some(c) => c,
                    None => HashSet::new(),
                };
                consumers.insert(id);
                parents.insert(src, consumers);
                proof {
                    lemma_parents_add_edge(e, id, args@, j as int);
                    assert(Map::new(|k: u32| parents@.contains_key(k), |k: u32| parents@[k]@) =~= before.insert(
                        src,
                        (if before.contains_key(src) {
                            before[src]
                        } else {
                            Set::empty()
                        }).insert(id),
                    ));
                }
            }
            if i == 0 || id > maximum_id {
                maximum_id = id;
            }
            let ghost args_view = args@;
            g.insert(id, args);
            proof {
                assert(ev.subrange(0, i + 1).drop_last() =~= ev.subrange(0, i as int));
                assert(ev.subrange(0, i + 1).last() == (id, args_view));
                assert(args_view.subrange(0, args_view.len() as int) =~= args_view);
                assert(Map::new(|k: u32| g@.contains_key(k), |k: u32| g@[k]@) =~= extend_graph(
                    Map::empty(),
                    ev.subrange(0, i + 1),
                ));
            }
        }
        proof {
            assert(ev.subrange(0, n as int) =~= ev);
            assert forall|k: u32| #[trigger] extend_graph(Map::empty(), ev).contains_key(k) implies k
                <= maximum_id by {
                lemma_extend_dom(ev, k);
                let i = choose|i: int| 0 <= i < ev.len() && ev[i].0 == k;
                assert(graph@[i].0 == k);
            }
            if n > 0 {
                let i = choose|i: int| 0 <= i < n && graph@[i].0 == maximum_id;
                lemma_extend_dom(ev, maximum_id);
                assert(ev[i].0 == maximum_id);
            }
        }
        GraphScheduler {
            graph: g,
            parents,
            evaluated: id_set(&evaluated),
            release_nodes: id_set(&release_nodes),
            traversal: sinks,
            maximum_id,
            phase: Phase::Exploring,
        }
    }

}

} // verus!
