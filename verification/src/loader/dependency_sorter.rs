//! The order in which modules are analyzed: each after every module that
//! it imports, or no order at all where the imports go round in a circle.
use vstd::prelude::*;
use vstd::set_lib::{lemma_int_range, lemma_len_subset, set_int_range};

use crate::ast::{clone_names, name_models};
use crate::scope::{entry_keys, find_key, key_index, keys_of, lemma_key_index, lemma_key_index_is};

verus! {

/// The model of a graph: each node's name with the names it depends on.
pub type GraphModel = Seq<(Seq<char>, Seq<Seq<char>>)>;

/// Modules and what each imports. No two nodes have one name.
#[derive(Debug, PartialEq, Eq)]
pub struct DependencyGraph {
    pub nodes: Vec<(String, Vec<String>)>,
}

impl View for DependencyGraph {
    type V = GraphModel;

    open spec fn view(&self) -> GraphModel {
        Seq::new(self.nodes@.len(), |i: int| (self.nodes@[i].0@, name_models(self.nodes@[i].1@)))
    }
}

/// No two nodes have one name.
pub open spec fn distinct_nodes(graph: GraphModel) -> bool {
    forall|i: int, j: int| 0 <= i < j < graph.len() ==> graph[i].0 != graph[j].0
}

/// The place of the node called `name`, or -1.
pub open spec fn node_index(graph: GraphModel, name: Seq<char>) -> int {
    key_index(keys_of(graph), name)
}

/// What the node called `name` depends on; nothing where there is no such
/// node.
pub open spec fn dependencies_of(graph: GraphModel, name: Seq<char>) -> Seq<Seq<char>> {
    if node_index(graph, name) >= 0 {
        graph[node_index(graph, name)].1
    } else {
        Seq::empty()
    }
}

/// The node at place `k` of `order` comes after its dependency `m`, if
/// that is a node of the graph at all.
pub open spec fn dependency_comes_first(
    graph: GraphModel,
    order: Seq<Seq<char>>,
    k: int,
    m: int,
) -> bool {
    let dep = dependencies_of(graph, order[k])[m];
    node_index(graph, dep) >= 0 ==> 0 <= key_index(order, dep) < k
}

/// `order` holds every node of the graph once, and each after the nodes
/// that it depends on.
pub open spec fn is_dependency_order(graph: GraphModel, order: Seq<Seq<char>>) -> bool {
    &&& order.no_duplicates()
    &&& forall|k: int| 0 <= k < order.len() ==> #[trigger] node_index(graph, order[k]) >= 0
    &&& forall|i: int| 0 <= i < graph.len() ==> #[trigger] key_index(order, graph[i].0) >= 0
    &&& forall|k: int, m: int|
        0 <= k < order.len() && 0 <= m < dependencies_of(graph, order[k]).len()
            ==> #[trigger] dependency_comes_first(graph, order, k, m)
}

/// The node at place `k` of `cycle` depends on the one at the next place,
/// the last on the first.
pub open spec fn cycle_link(graph: GraphModel, cycle: Seq<Seq<char>>, k: int) -> bool {
    let next = if k + 1 < cycle.len() {
        k + 1
    } else {
        0
    };
    &&& node_index(graph, cycle[k]) >= 0
    &&& dependencies_of(graph, cycle[k]).contains(cycle[next])
}

/// `cycle` is a circle of nodes, each depending on the next.
pub open spec fn is_cycle(graph: GraphModel, cycle: Seq<Seq<char>>) -> bool {
    &&& cycle.len() > 0
    &&& forall|k: int| 0 <= k < cycle.len() ==> #[trigger] cycle_link(graph, cycle, k)
}

/// In a graph of distinct nodes a node's name leads back to its place.
pub proof fn lemma_node_index(graph: GraphModel, i: int)
    requires
        distinct_nodes(graph),
        0 <= i < graph.len(),
    ensures
        node_index(graph, graph[i].0) == i,
{
    lemma_key_index_is(keys_of(graph), graph[i].0, i);
}

/// Distinct numbers below `n` are at most `n`.
pub proof fn lemma_distinct_bounded(s: Seq<int>, n: int)
    requires
        0 <= n,
        s.no_duplicates(),
        forall|k: int| 0 <= k < s.len() ==> 0 <= #[trigger] s[k] < n,
    ensures
        s.len() <= n,
{
    s.unique_seq_to_set();
    lemma_int_range(0, n);
    assert(s.to_set().subset_of(set_int_range(0, n)));
    lemma_len_subset(s.to_set(), set_int_range(0, n));
}

/// The places of a sequence of node numbers, as integers.
pub open spec fn as_ints(s: Seq<usize>) -> Seq<int> {
    Seq::new(s.len(), |k: int| s[k] as int)
}

/// The dependency `d` is a node that has no place in the order yet.
pub open spec fn dep_blocks(graph: GraphModel, pos: Seq<Option<usize>>, d: Seq<char>) -> bool {
    let j = node_index(graph, d);
    j >= 0 && pos[j].is_none()
}

/// The node `i` waits for a dependency.
pub open spec fn is_blocked(graph: GraphModel, pos: Seq<Option<usize>>, i: int) -> bool {
    exists|m: int| 0 <= m < graph[i].1.len() && #[trigger] dep_blocks(graph, pos, graph[i].1[m])
}

/// `pos` and `order` describe one partial order: `pos` gives each placed
/// node its place in `order`, and each placed node comes after those of
/// its dependencies that are nodes.
pub open spec fn placed(graph: GraphModel, pos: Seq<Option<usize>>, order: Seq<usize>) -> bool {
    &&& pos.len() == graph.len()
    &&& forall|k: int|
        0 <= k < order.len() ==> (#[trigger] order[k]) < graph.len() && at_place(
            pos[order[k] as int],
            k,
        )
    &&& forall|i: int|
        0 <= i < graph.len() ==> (#[trigger] pos[i] matches Some(k) ==> k < order.len()
            && order[k as int] == i)
    &&& forall|k: int, m: int|
        0 <= k < order.len() && 0 <= m < graph[order[k] as int].1.len() ==> #[trigger] placed_dep(
            graph,
            pos,
            graph[order[k] as int].1[m],
            k,
        )
}

/// The place `p` is the place `k`.
pub open spec fn at_place(p: Option<usize>, k: int) -> bool {
    p matches Some(x) && x == k
}

/// The dependency `d`, if it is a node, has a place before `k`.
pub open spec fn placed_dep(graph: GraphModel, pos: Seq<Option<usize>>, d: Seq<char>, k: int) -> bool {
    let j = node_index(graph, d);
    j >= 0 ==> (pos[j] matches Some(p) && p < k)
}

/// The node `b` is among the dependencies of the node `a`.
pub open spec fn linked(graph: GraphModel, a: int, b: int) -> bool {
    graph[a].1.contains(graph[b].0)
}

impl DependencyGraph {
    /// A graph without nodes.
    pub fn new() -> (r: DependencyGraph)
        ensures
            r@.len() == 0,
            distinct_nodes(r@),
    {
        DependencyGraph { nodes: Vec::new() }
    }

    /// Sets what the node `name` depends on, adding the node if it is new.
    pub fn insert(&mut self, name: String, deps: Vec<String>)
        requires
            distinct_nodes(old(self)@),
        ensures
            distinct_nodes(final(self)@),
            final(self)@ == if node_index(old(self)@, name@) >= 0 {
                old(self)@.update(node_index(old(self)@, name@), (name@, name_models(deps@)))
            } else {
                old(self)@.push((name@, name_models(deps@)))
            },
    {
        proof {
            assert(keys_of(self@) =~= entry_keys(self.nodes@));
            lemma_key_index(keys_of(self@), name@);
        }
        match find_key(&self.nodes, &name) {
            Some(i) => {
                self.nodes.set(i, (name, deps));
                assert(self@ =~= old(self)@.update(i as int, (name@, name_models(deps@))));
            },
            None => {
                self.nodes.push((name, deps));
                assert(self@ =~= old(self)@.push((name@, name_models(deps@))));
                assert forall|i: int, j: int| 0 <= i < j < self@.len() implies self@[i].0
                    != self@[j].0 by {
                    if j == self@.len() - 1 {
                        assert(keys_of(old(self)@)[i] == old(self)@[i].0);
                    }
                }
            },
        }
    }

    /// A dependency of node `i` that is a node without a place, with the
    /// place of that dependency among the dependencies of `i`.
    fn blocker(&self, pos: &Vec<Option<usize>>, i: usize) -> (r: Option<(usize, usize)>)
        requires
            i < self.nodes.len(),
            pos.len() == self.nodes.len(),
        ensures
            r.is_some() == is_blocked(self@, pos@, i as int),
            r matches Some((j, m)) ==> j < self.nodes.len() && pos[j as int].is_none() && m
                < self@[i as int].1.len() && node_index(self@, self@[i as int].1[m as int]) == j,
    {
        let deps = &self.nodes[i].1;
        let ghost graph = self@;
        proof {
            assert(keys_of(graph) =~= entry_keys(self.nodes@));
        }
        let mut m: usize = 0;
        while m < deps.len()
            invariant
                m <= deps.len(),
                i < self.nodes.len(),
                pos.len() == self.nodes.len(),
                graph == self@,
                deps == self.nodes[i as int].1,
                keys_of(graph) == entry_keys(self.nodes@),
                forall|x: int| 0 <= x < m ==> !#[trigger] dep_blocks(graph, pos@, graph[i as int].1[x]),
            decreases deps.len() - m,
        {
            assert(graph[i as int].1[m as int] == deps[m as int]@);
            match find_key(&self.nodes, &deps[m]) {
                Some(j) => {
                    if pos[j].is_none() {
                        assert(dep_blocks(graph, pos@, graph[i as int].1[m as int]));
                        return Some((j, m));
                    }
                },
                None => {},
            }
            m += 1;
        }
        None
    }
}

/// The names of the nodes at the places `order`, in that order.
fn names_at(graph: &DependencyGraph, order: &Vec<usize>, from: usize) -> (r: Vec<String>)
    requires
        from <= order.len(),
        forall|k: int| 0 <= k < order.len() ==> (#[trigger] order[k]) < graph.nodes.len(),
    ensures
        r.len() == order.len() - from,
        forall|k: int| 0 <= k < r.len() ==> (#[trigger] r[k]@) == graph@[order[from + k] as int].0,
{
    let mut out: Vec<String> = Vec::new();
    let mut k: usize = from;
    while k < order.len()
        invariant
            from <= k <= order.len(),
            out.len() == k - from,
            forall|x: int| 0 <= x < order.len() ==> (#[trigger] order[x]) < graph.nodes.len(),
            forall|x: int| 0 <= x < out.len() ==> (#[trigger] out[x]@) == graph@[order[from + x] as int].0,
        decreases order.len() - k,
    {
        out.push(graph.nodes[order[k]].0.clone());
        k += 1;
    }
    out
}

/// Orders the nodes so that each comes after the nodes it depends on
/// (names that are no node of the graph ask for nothing). Where no such
/// order exists, hands back a circle of nodes instead, each depending on
/// the next and the last on the first, and none named twice.
pub fn sort_dependencies(graph: &DependencyGraph) -> (r: Result<Vec<String>, Vec<String>>)
    requires
        distinct_nodes(graph@),
    ensures
        match r {
            Ok(order) => is_dependency_order(graph@, name_models(order@)),
            Err(cycle) => is_cycle(graph@, name_models(cycle@)) && name_models(
                cycle@,
            ).no_duplicates(),
        },
{
    let n = graph.nodes.len();
    let ghost g = graph@;
    let mut pos: Vec<Option<usize>> = Vec::new();
    while pos.len() < n
        invariant
            pos.len() <= n,
            forall|i: int| 0 <= i < pos.len() ==> (#[trigger] pos[i]).is_none(),
        decreases n - pos.len(),
    {
        pos.push(None);
    }
    let mut order: Vec<usize> = Vec::new();
    loop
        invariant
            n == graph.nodes.len(),
            g == graph@,
            distinct_nodes(g),
            placed(g, pos@, order@),
            order.len() <= n,
        decreases n - order.len(),
    {
        // Look for a node without a place that waits for nothing.
        let mut ready: Option<usize> = None;
        let mut waiting: Option<usize> = None;
        let mut i: usize = 0;
        while i < n && ready.is_none()
            invariant
                i <= n,
                n == graph.nodes.len(),
                g == graph@,
                pos.len() == n,
                ready matches Some(x) ==> x < n && pos[x as int].is_none() && !is_blocked(
                    g,
                    pos@,
                    x as int,
                ),
                waiting matches Some(x) ==> x < n && pos[x as int].is_none(),
                ready.is_none() ==> forall|x: int|
                    0 <= x < i ==> (#[trigger] pos[x]).is_some() || is_blocked(g, pos@, x),
                ready.is_none() && waiting.is_none() ==> forall|x: int|
                    0 <= x < i ==> (#[trigger] pos[x]).is_some(),
            decreases n - i,
        {
            if pos[i].is_none() {
                if graph.blocker(&pos, i).is_none() {
                    ready = Some(i);
                } else if waiting.is_none() {
                    waiting = Some(i);
                }
            }
            i += 1;
        }
        match ready {
            Some(x) => {
                let ghost old_pos = pos@;
                let ghost old_order = order@;
                proof {
                    let s = as_ints(order@.push(x));
                    assert(s.no_duplicates()) by {
                        assert forall|a: int, b: int|
                            0 <= a < s.len() && 0 <= b < s.len() && a != b implies s[a]
                            != s[b] by {
                            if a < old_order.len() && b < old_order.len() {
                                assert(at_place(old_pos[old_order[a] as int], a));
                                assert(at_place(old_pos[old_order[b] as int], b));
                            } else if a < old_order.len() {
                                assert(at_place(old_pos[old_order[a] as int], a));
                            } else if b < old_order.len() {
                                assert(at_place(old_pos[old_order[b] as int], b));
                            }
                        }
                    }
                    assert forall|k: int| 0 <= k < s.len() implies 0 <= #[trigger] s[k] < n by {
                        if k < old_order.len() {
                            assert(old_order[k] < g.len());
                        }
                    }
                    lemma_distinct_bounded(s, n as int);
                }
                pos.set(x, Some(order.len()));
                order.push(x);
                proof {
                    assert forall|k: int| 0 <= k < order.len() implies (#[trigger] order[k])
                        < g.len() && at_place(pos[order[k] as int], k) by {
                        if k < old_order.len() {
                            assert(old_order[k] < g.len());
                            assert(at_place(old_pos[old_order[k] as int], k));
                        }
                    }
                    assert forall|i: int| 0 <= i < g.len() implies (#[trigger] pos[i] matches Some(
                        k,
                    ) ==> k < order.len() && order[k as int] == i) by {
                        if i != x {
                            assert(pos[i] == old_pos[i]);
                        }
                    }
                    assert forall|k: int, m: int|
                        0 <= k < order.len() && 0 <= m < g[order[k] as int].1.len()
                        implies #[trigger] placed_dep(g, pos@, g[order[k] as int].1[m], k) by {
                        let d = g[order[k] as int].1[m];
                        let j = node_index(g, d);
                        lemma_key_index(keys_of(g), d);
                        if k < old_order.len() {
                            assert(placed_dep(g, old_pos, g[old_order[k] as int].1[m], k));
                            if j >= 0 {
                                assert(old_pos[j].is_some());
                                assert(pos[j] == old_pos[j]);
                            }
                        } else {
                            assert(!dep_blocks(g, old_pos, g[x as int].1[m]));
                            if j >= 0 {
                                assert(old_pos[j].is_some());
                                assert(j != x);
                                assert(pos[j] == old_pos[j]);
                            }
                        }
                    }
                }
            },
            None => {
                match waiting {
                    None => {
                        let names = names_at(graph, &order, 0);
                        proof {
                            lemma_order_of_names(g, pos@, order@, name_models(names@));
                        }
                        return Ok(names);
                    },
                    Some(start) => {
                        return Err(find_cycle(graph, &pos, start));
                    },
                }
            },
        }
    }
}

/// The names of a complete placing are a dependency order.
proof fn lemma_order_of_names(
    g: GraphModel,
    pos: Seq<Option<usize>>,
    order: Seq<usize>,
    names: Seq<Seq<char>>,
)
    requires
        distinct_nodes(g),
        placed(g, pos, order),
        forall|x: int| 0 <= x < g.len() ==> (#[trigger] pos[x]).is_some(),
        names.len() == order.len(),
        forall|k: int| 0 <= k < names.len() ==> (#[trigger] names[k]) == g[order[k] as int].0,
    ensures
        is_dependency_order(g, names),
{
    assert forall|a: int, b: int| 0 <= a < names.len() && 0 <= b < names.len() && a != b implies names[a]
        != names[b] by {
        assert(at_place(pos[order[a] as int], a));
        assert(at_place(pos[order[b] as int], b));
        assert(order[a] != order[b]);
        assert(names[a] == g[order[a] as int].0);
        assert(names[b] == g[order[b] as int].0);
    }
    assert forall|k: int| 0 <= k < names.len() implies key_index(names, #[trigger] names[k])
        == k by {
        lemma_key_index_is(names, names[k], k);
    }
    assert forall|k: int| 0 <= k < names.len() implies #[trigger] node_index(g, names[k])
        == order[k] by {
        assert(order[k] < g.len());
        lemma_node_index(g, order[k] as int);
    }
    assert forall|i: int| 0 <= i < g.len() implies #[trigger] key_index(names, g[i].0) >= 0 by {
        assert(pos[i].is_some());
        let k = pos[i]->Some_0 as int;
        assert(order[k] == i);
        assert(names[k] == g[i].0);
        assert(key_index(names, names[k]) == k);
    }
    assert forall|k: int, m: int|
        0 <= k < names.len() && 0 <= m < dependencies_of(g, names[k]).len()
        implies #[trigger] dependency_comes_first(g, names, k, m) by {
        assert(node_index(g, names[k]) == order[k]);
        let d = g[order[k] as int].1[m];
        assert(placed_dep(g, pos, d, k));
        let j = node_index(g, d);
        lemma_key_index(keys_of(g), d);
        if j >= 0 {
            let p = pos[j]->Some_0 as int;
            assert(order[p] == j);
            assert(names[p] == g[j].0);
            assert(g[j].0 == d);
            assert(key_index(names, names[p]) == p);
        }
    }
}

/// Walks from `start` along dependencies that wait for a place, until a
/// node is met for the second time.
fn find_cycle(graph: &DependencyGraph, pos: &Vec<Option<usize>>, start: usize) -> (r: Vec<String>)
    requires
        distinct_nodes(graph@),
        pos.len() == graph.nodes.len(),
        start < graph.nodes.len(),
        pos[start as int].is_none(),
        forall|x: int|
            0 <= x < graph.nodes.len() ==> (#[trigger] pos[x]).is_some() || is_blocked(
                graph@,
                pos@,
                x,
            ),
    ensures
        is_cycle(graph@, name_models(r@)),
        name_models(r@).no_duplicates(),
{
    let n = graph.nodes.len();
    let ghost g = graph@;
    let mut path: Vec<usize> = Vec::new();
    path.push(start);
    loop
        invariant
            n == graph.nodes.len(),
            g == graph@,
            distinct_nodes(g),
            pos.len() == n,
            0 < path.len() <= n,
            forall|x: int| 0 <= x < n ==> (#[trigger] pos[x]).is_some() || is_blocked(g, pos@, x),
            forall|k: int| 0 <= k < path.len() ==> (#[trigger] path[k]) < n && pos[path[k] as int].is_none(),
            as_ints(path@).no_duplicates(),
            forall|k: int|
                0 <= k < path.len() - 1 ==> #[trigger] linked(g, path[k] as int, path[k + 1] as int),
        decreases n - path.len(),
    {
        let cur = path[path.len() - 1];
        assert(pos[cur as int].is_some() || is_blocked(g, pos@, cur as int));
        let next = match graph.blocker(pos, cur) {
            Some((j, m)) => {
                proof {
                    let d = g[cur as int].1[m as int];
                    lemma_key_index(keys_of(g), d);
                    assert(g[j as int].0 == d);
                    assert(linked(g, cur as int, j as int));
                }
                j
            },
            None => {
                // A node without a place waits for another, so there is one.
                cur
            },
        };
        assert(linked(g, cur as int, next as int));
        let mut p: usize = 0;
        while p < path.len() && path[p] != next
            invariant
                p <= path.len(),
                forall|k: int| 0 <= k < p ==> (#[trigger] path[k]) != next,
            decreases path.len() - p,
        {
            p += 1;
        }
        if p < path.len() {
            let names = names_at(graph, &path, p);
            proof {
                let cycle = name_models(names@);
                assert forall|a: int, b: int|
                    0 <= a < cycle.len() && 0 <= b < cycle.len() && a != b implies cycle[a]
                    != cycle[b] by {
                    assert(path[p + a] < n);
                    assert(path[p + b] < n);
                    assert(as_ints(path@)[p + a] != as_ints(path@)[p + b]);
                    assert(cycle[a] == g[path[p + a] as int].0);
                    assert(cycle[b] == g[path[p + b] as int].0);
                }
                assert forall|k: int| 0 <= k < cycle.len() implies #[trigger] cycle_link(
                    g,
                    cycle,
                    k,
                ) by {
                    assert(path[p + k] < n);
                    lemma_node_index(g, path[p + k] as int);
                    assert(cycle[k] == g[path[p + k] as int].0);
                    if k + 1 < cycle.len() {
                        assert(linked(g, path[p + k] as int, path[p + k + 1] as int));
                        assert(cycle[k + 1] == g[path[p + k + 1] as int].0);
                    } else {
                        assert(cycle[0] == g[path[p as int] as int].0);
                    }
                }
            }
            return names;
        }
        proof {
            let s = as_ints(path@.push(next));
            assert(s.no_duplicates()) by {
                assert forall|a: int, b: int|
                    0 <= a < s.len() && 0 <= b < s.len() && a != b implies s[a] != s[b] by {
                    if a < path.len() && b < path.len() {
                        assert(as_ints(path@)[a] != as_ints(path@)[b]);
                    }
                }
            }
            assert forall|k: int| 0 <= k < s.len() implies 0 <= #[trigger] s[k] < n by {
                if k < path.len() {
                    assert(path[k] < n);
                }
            }
            lemma_distinct_bounded(s, n as int);
        }
        let ghost before = path@;
        path.push(next);
        proof {
            assert(as_ints(path@) =~= as_ints(before.push(next)));
            assert forall|k: int| 0 <= k < path.len() - 1 implies #[trigger] linked(
                g,
                path[k] as int,
                path[k + 1] as int,
            ) by {
                if k < before.len() - 1 {
                    assert(linked(g, before[k] as int, before[k + 1] as int));
                }
            }
        }
    }
}

/// In a dependency order each node of a circle has a place, and the node
/// at place `k` of the circle comes at least `k` places before the first.
proof fn lemma_places_fall(g: GraphModel, cycle: Seq<Seq<char>>, order: Seq<Seq<char>>, k: int)
    requires
        is_cycle(g, cycle),
        is_dependency_order(g, order),
        0 <= k < cycle.len(),
    ensures
        0 <= key_index(order, cycle[k]),
        key_index(order, cycle[k]) + k <= key_index(order, cycle[0]),
    decreases k,
{
    assert(cycle_link(g, cycle, k));
    let i = node_index(g, cycle[k]);
    lemma_key_index(keys_of(g), cycle[k]);
    assert(g[i].0 == cycle[k]);
    assert(key_index(order, g[i].0) >= 0);
    if k > 0 {
        lemma_places_fall(g, cycle, order, k - 1);
        lemma_link_places(g, cycle, order, k - 1);
    }
}

/// In a dependency order the node after a node of a circle comes before
/// that node.
proof fn lemma_link_places(g: GraphModel, cycle: Seq<Seq<char>>, order: Seq<Seq<char>>, k: int)
    requires
        is_cycle(g, cycle),
        is_dependency_order(g, order),
        0 <= k < cycle.len(),
        0 <= key_index(order, cycle[k]),
    ensures
        key_index(
            order,
            cycle[if k + 1 < cycle.len() {
                k + 1
            } else {
                0
            }],
        ) < key_index(order, cycle[k]),
{
    let next = if k + 1 < cycle.len() {
        k + 1
    } else {
        0
    };
    assert(cycle_link(g, cycle, k));
    assert(cycle_link(g, cycle, next));
    let p = key_index(order, cycle[k]);
    lemma_key_index(order, cycle[k]);
    assert(order[p] == cycle[k]);
    let deps = dependencies_of(g, cycle[k]);
    let m = choose|m: int| 0 <= m < deps.len() && deps[m] == cycle[next];
    assert(dependency_comes_first(g, order, p, m));
}

/// A graph in which nodes depend on each other in a circle has no
/// dependency order, and a graph that has one has no such circle: so the
/// sort fails exactly where no order exists.
pub proof fn law_circle_has_no_order(g: GraphModel, cycle: Seq<Seq<char>>, order: Seq<Seq<char>>)
    requires
        is_cycle(g, cycle),
    ensures
        !is_dependency_order(g, order),
{
    if is_dependency_order(g, order) {
        let last = cycle.len() - 1;
        lemma_places_fall(g, cycle, order, last);
        lemma_link_places(g, cycle, order, last);
    }
}

/// Of two modules that import each other, and nothing else, the circle
/// that names no module twice is the one followed by the other.
pub proof fn law_circle_of_two(a: Seq<char>, b: Seq<char>, cycle: Seq<Seq<char>>)
    requires
        a != b,
        is_cycle(seq![(a, seq![b]), (b, seq![a])], cycle),
        cycle.no_duplicates(),
    ensures
        cycle == seq![a, b] || cycle == seq![b, a],
{
    let g: GraphModel = seq![(a, seq![b]), (b, seq![a])];
    assert(keys_of(g) =~= seq![a, b]);
    assert forall|k: int| 0 <= k < cycle.len() implies (#[trigger] cycle[k] == a || cycle[k]
        == b) && dependencies_of(g, cycle[k]) == (if cycle[k] == a {
        seq![b]
    } else {
        seq![a]
    }) by {
        assert(cycle_link(g, cycle, k));
        lemma_key_index(keys_of(g), cycle[k]);
        let i = node_index(g, cycle[k]);
        assert(keys_of(g)[i] == cycle[k]);
        if i == 0 {
            lemma_key_index_is(keys_of(g), a, 0);
        } else {
            lemma_key_index_is(keys_of(g), b, 1);
        }
    }
    assert(cycle_link(g, cycle, 0));
    if cycle.len() == 1 {
        let deps = dependencies_of(g, cycle[0]);
        let m = choose|m: int| 0 <= m < deps.len() && deps[m] == cycle[0];
        assert(false);
    } else if cycle.len() == 2 {
        assert(cycle[0] != cycle[1]);
        if cycle[0] == a {
            assert(cycle =~= seq![a, b]);
        } else {
            assert(cycle =~= seq![b, a]);
        }
    } else {
        assert(cycle[0] != cycle[1] && cycle[1] != cycle[2] && cycle[0] != cycle[2]);
        assert(false);
    }
}

} // verus!
