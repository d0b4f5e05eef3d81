use vstd::prelude::*;

use crate::text::{same_text, text_lt, name_lt, lemma_name_lt_total, group_name_order};

verus! {

/// A directed, weighted edge between two nodes, given by their index in the graph.
#[derive(Debug, Clone, Copy, PartialEq, Eq, Structural)]
pub struct Edge {
    pub from: u32,
    pub to: u32,
    pub weight: u32,
}

/// An edge as every member of the mesh knows it: weight and the names of its ends.
pub type NamedEdge = (u32, Seq<char>, Seq<char>);

/// The order in which the spanning tree considers edges: by weight, then by the name
/// of the first end, then by the name of the second. It depends on names alone, so
/// every member of the mesh sees the same order whatever its node numbering.
pub open spec fn named_lt(a: NamedEdge, b: NamedEdge) -> bool {
    a.0 < b.0 || (a.0 == b.0 && name_lt(a.1, b.1)) || (a.0 == b.0 && a.1 == b.1 && name_lt(a.2, b.2))
}

/// An edge of a graph with node names `nodes`, by names.
pub open spec fn named(nodes: Seq<String>, e: Edge) -> NamedEdge {
    (e.weight, nodes[e.from as int]@, nodes[e.to as int]@)
}

/// The naming of edges in a graph with node names `nodes`.
pub open spec fn naming(nodes: Seq<String>) -> spec_fn(Edge) -> NamedEdge {
    |e: Edge| named(nodes, e)
}

/// Edge order in a graph with node names `nodes`: the order of the named edges.
pub open spec fn edge_lt(nodes: Seq<String>, a: Edge, b: Edge) -> bool {
    named_lt(named(nodes, a), named(nodes, b))
}

/// `s` is in strictly increasing edge order, so it holds no edge twice.
pub open spec fn strictly_sorted(nodes: Seq<String>, s: Seq<Edge>) -> bool {
    forall|i: int, j: int| 0 <= i < j < s.len() ==> edge_lt(nodes, #[trigger] s[i], #[trigger] s[j])
}

/// `s` is in strictly increasing named order.
pub open spec fn strictly_sorted_named(s: Seq<NamedEdge>) -> bool {
    forall|i: int, j: int| 0 <= i < j < s.len() ==> named_lt(#[trigger] s[i], #[trigger] s[j])
}

/// Kruskal's choice over named edges, components given by a representative name.
pub open spec fn kruskal_named(es: Seq<NamedEdge>, comp: spec_fn(Seq<char>) -> Seq<char>) -> Seq<NamedEdge>
    decreases es.len(),
{
    if es.len() == 0 {
        Seq::empty()
    } else {
        let e = es[0];
        let a = comp(e.1);
        let b = comp(e.2);
        if a != b {
            seq![e] + kruskal_named(es.drop_first(), |x: Seq<char>| if comp(x) == a { b } else { comp(x) })
        } else {
            kruskal_named(es.drop_first(), comp)
        }
    }
}

/// Components after joining the one labelled `a` to the one labelled `b`.
pub open spec fn relabel(labels: Seq<u32>, a: u32, b: u32) -> Seq<u32> {
    Seq::new(labels.len(), |i: int| if labels[i] == a { b } else { labels[i] })
}

/// Kruskal's choice over `es` in order: an edge is kept when its endpoints lie in
/// different components, whose labels `labels` gives, and the two are then joined.
pub open spec fn kruskal(es: Seq<Edge>, labels: Seq<u32>) -> Seq<Edge>
    decreases es.len(),
{
    if es.len() == 0 {
        Seq::empty()
    } else {
        let e = es[0];
        let a = labels[e.from as int];
        let b = labels[e.to as int];
        if a != b {
            seq![e] + kruskal(es.drop_first(), relabel(labels, a, b))
        } else {
            kruskal(es.drop_first(), labels)
        }
    }
}

/// Whether an edge does not run from `from` to `to`.
pub open spec fn not_between(from: u32, to: u32) -> spec_fn(Edge) -> bool {
    |x: Edge| !(x.from == from && x.to == to)
}

/// Every node in a component of its own.
pub open spec fn singletons(n: nat) -> Seq<u32> {
    Seq::new(n, |i: int| i as u32)
}

/// Whether `e` may stand in a graph of `n` nodes: both ends exist and differ.
pub open spec fn valid_edge(e: Edge, n: nat) -> bool {
    e.from < n && e.to < n && e.from != e.to
}

/// The nodes and edges known in the mesh.
#[derive(Debug)]
pub struct Graph {
    /// Node names; a node's index is its identifier.
    pub nodes: Vec<String>,
    /// The advertised edges, in `edge_lt` order: by weight, then by end names.
    pub edges: Vec<Edge>,
}

impl Graph {
    /// Node names are distinct, edges are sorted and valid, and node indices fit in `u32`.
    pub open spec fn wf(&self) -> bool {
        &&& self.nodes@.len() <= u32::MAX
        &&& forall|i: int, j: int|
            0 <= i < j < self.nodes@.len() ==> #[trigger] self.nodes@[i]@ != #[trigger] self.nodes@[j]@
        &&& strictly_sorted(self.nodes@, self.edges@)
        &&& forall|i: int|
            0 <= i < self.edges@.len() ==> valid_edge(#[trigger] self.edges@[i], self.nodes@.len())
    }

    /// The graph's edges by names, in edge order.
    pub open spec fn named_edges(&self) -> Seq<NamedEdge> {
        self.edges@.map_values(naming(self.nodes@))
    }

    /// The spanning forest by names: Kruskal's choice over the named edges, every
    /// node starting as its own component. It depends on the named edges alone.
    pub open spec fn named_tree(&self) -> Seq<NamedEdge> {
        kruskal_named(self.named_edges(), |x: Seq<char>| x)
    }

    /// The minimum spanning forest of the graph, in edge order.
    pub open spec fn spanning_tree(&self) -> Seq<Edge> {
        kruskal(self.edges@, singletons(self.nodes@.len()))
    }

    /// An empty graph.
    pub fn new() -> (r: Graph)
        ensures
            r.wf(),
            r.nodes@.len() == 0,
            r.edges@.len() == 0,
    {
        Graph { nodes: Vec::new(), edges: Vec::new() }
    }

    /// The index of the node called `name`, if there is one.
    pub fn find_node(&self, name: &str) -> (r: Option<u32>)
        requires
            self.wf(),
        ensures
            r matches Some(i) ==> i < self.nodes@.len() && self.nodes@[i as int]@ == name@,
            r is None ==> forall|i: int| 0 <= i < self.nodes@.len() ==> self.nodes@[i]@ != name@,
    {
        let mut i: usize = 0;
        while i < self.nodes.len()
            invariant
                self.wf(),
                i <= self.nodes@.len(),
                forall|k: int| 0 <= k < i ==> self.nodes@[k]@ != name@,
            decreases self.nodes@.len() - i,
        {
            if same_text(self.nodes[i].as_str(), name) {
                return Some(i as u32);
            }
            i = i + 1;
        }
        None
    }

    /// The index of the node called `name`, added if it is new; `None` when the graph
    /// holds as many nodes as `u32` can count.
    pub fn add_node(&mut self, name: &str) -> (r: Option<u32>)
        requires
            old(self).wf(),
        ensures
            final(self).wf(),
            final(self).edges@ == old(self).edges@,
            r matches Some(i) ==> i < final(self).nodes@.len() && final(self).nodes@[i as int]@
                == name@,
            r matches Some(i) ==> (i < old(self).nodes@.len() && final(self).nodes@ == old(
                self,
            ).nodes@) || (i == old(self).nodes@.len() && final(self).nodes@.len() == i + 1
                && final(self).nodes@.subrange(0, i as int) == old(self).nodes@),
            r is None ==> *final(self) == *old(self) && old(self).nodes@.len() == u32::MAX
                && forall|i: int| 0 <= i < old(self).nodes@.len() ==> old(self).nodes@[i]@ != name@,
    {
        match self.find_node(name) {
            Some(i) => Some(i),
            None => {
                if self.nodes.len() >= 0xffff_ffffusize {
                    return None;
                }
                let i = self.nodes.len() as u32;
                self.nodes.push(String::from_str(name));
                assert(self.nodes@.subrange(0, i as int) =~= old(self).nodes@);
                assert forall|a: int, b: int| 0 <= a < b < self.edges@.len() implies edge_lt(
                    self.nodes@, #[trigger] self.edges@[a], #[trigger] self.edges@[b]) by {
                    assert(valid_edge(self.edges@[a], old(self).nodes@.len()));
                    assert(valid_edge(self.edges@[b], old(self).nodes@.len()));
                    assert(edge_lt(old(self).nodes@, self.edges@[a], self.edges@[b]));
                }
                Some(i)
            },
        }
    }

    /// Adds an edge; returns whether the graph changed. An edge that is already there,
    /// a self-loop, or one with an unknown end leaves the graph as it was.
    pub fn add_edge(&mut self, e: Edge) -> (r: bool)
        requires
            old(self).wf(),
        ensures
            final(self).wf(),
            final(self).nodes@ == old(self).nodes@,
            r == (valid_edge(e, old(self).nodes@.len()) && !old(self).edges@.contains(e)),
            r ==> final(self).edges@.to_set() == old(self).edges@.to_set().insert(e),
            !r ==> final(self).edges@ == old(self).edges@,
    {
        if !(e.from < e.to || e.to < e.from) || e.from as usize >= self.nodes.len() || e.to as usize
            >= self.nodes.len() {
            return false;
        }
        let n = self.edges.len();
        let mut i: usize = 0;
        while i < n && self.less(self.edges[i], e)
            invariant
                self.wf(),
                n == self.edges@.len(),
                i <= n,
                valid_edge(e, self.nodes@.len()),
                forall|k: int| 0 <= k < i ==> edge_lt(self.nodes@, #[trigger] self.edges@[k], e),
            decreases n - i,
        {
            i = i + 1;
        }
        broadcast use group_name_order;
        if i < n && self.edges[i] == e {
            assert(self.edges@.contains(e));
            return false;
        }
        proof {
            if i < n {
                lemma_edge_lt_total(self.nodes@, self.edges@[i as int], e);
            }
        }
        assert forall|k: int| i <= k < n implies edge_lt(self.nodes@, e, #[trigger] self.edges@[k]) by {
            assert(!edge_lt(self.nodes@, self.edges@[i as int], e));
            if k > i {
                assert(edge_lt(self.nodes@, self.edges@[i as int], self.edges@[k]));
            }
        }
        assert(!self.edges@.contains(e)) by {
            if self.edges@.contains(e) {
                let k = choose|k: int| 0 <= k < n && self.edges@[k] == e;
                assert(edge_lt(self.nodes@, e, e));
            }
        }
        let ghost before = self.edges@;
        self.edges.insert(i, e);
        assert(self.edges@ == before.insert(i as int, e));
        assert forall|a: int, b: int|
            0 <= a < b < self.edges@.len() implies edge_lt(
            self.nodes@,
            #[trigger] self.edges@[a],
            #[trigger] self.edges@[b],
        ) by {
            if b < i {
                assert(edge_lt(self.nodes@, before[a], before[b]));
            } else if b == i {
                assert(edge_lt(self.nodes@, before[a], e));
            } else if a < i {
                assert(edge_lt(self.nodes@, before[a], before[b - 1]));
            } else if a == i {
                assert(edge_lt(self.nodes@, e, before[b - 1]));
            } else {
                assert(edge_lt(self.nodes@, before[a - 1], before[b - 1]));
            }
        }
        assert forall|x: Edge| #[trigger]
            self.edges@.contains(x) == before.insert(i as int, e).contains(x) by {}
        assert(self.edges@.to_set() =~= before.to_set().insert(e)) by {
            assert forall|x: Edge| self.edges@.contains(x) <==> (before.contains(x) || x == e) by {
                if self.edges@.contains(x) {
                    let k = choose|k: int| 0 <= k < self.edges@.len() && self.edges@[k] == x;
                    if k < i {
                        assert(before[k] == x);
                    } else if k > i {
                        assert(before[k - 1] == x);
                    }
                }
                if before.contains(x) {
                    let k = choose|k: int| 0 <= k < before.len() && before[k] == x;
                    if k < i {
                        assert(self.edges@[k] == x);
                    } else {
                        assert(self.edges@[k + 1] == x);
                    }
                }
                if x == e {
                    assert(self.edges@[i as int] == x);
                }
            }
        }
        true
    }

    /// Whether edge `a` comes before edge `b`: by weight, then by the names of their
    /// ends.
    pub fn less(&self, a: Edge, b: Edge) -> (r: bool)
        requires
            self.wf(),
            valid_edge(a, self.nodes@.len()),
            valid_edge(b, self.nodes@.len()),
        ensures
            r == edge_lt(self.nodes@, a, b),
    {
        broadcast use group_name_order;
        if a.weight != b.weight {
            return a.weight < b.weight;
        }
        let af = self.nodes[a.from as usize].as_str();
        let bf = self.nodes[b.from as usize].as_str();
        if !same_text(af, bf) {
            return text_lt(af, bf);
        }
        text_lt(self.nodes[a.to as usize].as_str(), self.nodes[b.to as usize].as_str())
    }

    /// Retracts every edge from `from` to `to`. Retracting an edge that is not there
    /// changes nothing.
    pub fn remove_edge(&mut self, from: u32, to: u32)
        requires
            old(self).wf(),
        ensures
            final(self).wf(),
            final(self).nodes@ == old(self).nodes@,
            final(self).edges@ == old(self).edges@.filter(not_between(from, to)),
    {
        let ghost keep = not_between(from, to);
        let n = self.edges.len();
        let mut kept: Vec<Edge> = Vec::new();
        let mut i: usize = 0;
        proof {
            reveal_with_fuel(Seq::<_>::filter, 1);
            assert(self.edges@.subrange(0, 0).filter(keep) =~= Seq::<Edge>::empty());
        }
        let ghost mut last: int = 0;
        while i < n
            invariant
                self.wf(),
                n == self.edges@.len(),
                i <= n,
                keep == not_between(from, to),
                kept@ == self.edges@.subrange(0, i as int).filter(keep),
                strictly_sorted(self.nodes@, kept@),
                kept@.len() > 0 ==> 0 <= last < i && kept@.last() == self.edges@[last],
                forall|k: int|
                    0 <= k < kept@.len() ==> valid_edge(#[trigger] kept@[k], self.nodes@.len()),
            decreases n - i,
        {
            let e = self.edges[i];
            let ghost upto = self.edges@.subrange(0, i + 1);
            assert(upto.drop_last() =~= self.edges@.subrange(0, i as int));
            assert(upto.last() == e);
            assert(keep(e) == !(e.from == from && e.to == to));
            reveal_with_fuel(Seq::<_>::filter, 1);
            assert(upto.filter(keep) == if keep(e) {
                self.edges@.subrange(0, i as int).filter(keep).push(e)
            } else {
                self.edges@.subrange(0, i as int).filter(keep)
            });
            if !(e.from == from && e.to == to) {
                proof {
                    if kept@.len() > 0 {
                        assert(edge_lt(self.nodes@, self.edges@[last], e));
                        broadcast use group_name_order;
                    }
                    last = i as int;
                }
                kept.push(e);
            }
            i = i + 1;
        }
        assert(self.edges@.subrange(0, n as int) =~= self.edges@);
        self.edges = kept;
    }

    /// Recomputes the minimum spanning forest: Kruskal's algorithm over the edges in
    /// their name order, so by names the result depends on the set of named edges
    /// alone, not on the order they came in or on how nodes are numbered.
    pub fn recompute_spanning_tree(&self) -> (r: Vec<Edge>)
        requires
            self.wf(),
        ensures
            r@ == self.spanning_tree(),
            r@.map_values(naming(self.nodes@)) == self.named_tree(),
    {
        proof {
            lemma_tree_by_names(*self);
        }
        let n = self.nodes.len();
        let mut labels: Vec<u32> = Vec::new();
        let mut k: usize = 0;
        while k < n
            invariant
                n == self.nodes@.len(),
                n <= u32::MAX,
                k <= n,
                labels@ == singletons(k as nat),
            decreases n - k,
        {
            labels.push(k as u32);
            k = k + 1;
            assert(labels@ =~= singletons(k as nat));
        }
        let m = self.edges.len();
        let mut tree: Vec<Edge> = Vec::new();
        assert(self.edges@.subrange(0, m as int) =~= self.edges@);
        assert(tree@ + self.spanning_tree() =~= self.spanning_tree());
        let mut i: usize = 0;
        while i < m
            invariant
                self.wf(),
                n == self.nodes@.len(),
                m == self.edges@.len(),
                i <= m,
                labels@.len() == n,
                tree@ + kruskal(self.edges@.subrange(i as int, m as int), labels@)
                    == self.spanning_tree(),
            decreases m - i,
        {
            let e = self.edges[i];
            let ghost rest = self.edges@.subrange(i as int, m as int);
            assert(rest[0] == e);
            assert(rest.drop_first() =~= self.edges@.subrange(i + 1, m as int));
            assert(valid_edge(self.edges@[i as int], n as nat));
            let a = labels[e.from as usize];
            let b = labels[e.to as usize];
            let ghost orig = labels@;
            let ghost next = rest.drop_first();
            if a != b {
                let ghost target = relabel(orig, a, b);
                let ghost old_tree = tree@;
                let mut j: usize = 0;
                while j < n
                    invariant
                        n == labels@.len(),
                        n == orig.len(),
                        j <= n,
                        target == relabel(orig, a, b),
                        forall|t: int| 0 <= t < j ==> labels@[t] == target[t],
                        forall|t: int| j <= t < n ==> labels@[t] == orig[t],
                    decreases n - j,
                {
                    if labels[j] == a {
                        labels.set(j, b);
                    }
                    j = j + 1;
                }
                assert(labels@ =~= target);
                tree.push(e);
                assert(kruskal(rest, orig) == seq![e] + kruskal(next, target));
                assert(old_tree + (seq![e] + kruskal(next, target)) =~= tree@ + kruskal(next, target));
            } else {
                assert(kruskal(rest, orig) == kruskal(next, orig));
            }
            i = i + 1;
        }
        assert(self.edges@.subrange(m as int, m as int) =~= Seq::<Edge>::empty());
        assert(tree@ + Seq::<Edge>::empty() =~= tree@);
        tree
    }
}

proof fn lemma_sorted_unique(s1: Seq<NamedEdge>, s2: Seq<NamedEdge>)
    requires
        strictly_sorted_named(s1),
        strictly_sorted_named(s2),
        forall|x: NamedEdge| s1.contains(x) <==> s2.contains(x),
    ensures
        s1 == s2,
    decreases s1.len(),
{
    broadcast use group_name_order;
    if s1.len() == 0 {
        if s2.len() > 0 {
            assert(s2.contains(s2[0]));
        }
        assert(s1 =~= s2);
    } else {
        assert(s1.contains(s1[0]));
        let a = s1[0];
        let b = s2[0];
        let j = choose|j: int| 0 <= j < s2.len() && s2[j] == a;
        assert(s2.contains(b));
        let k = choose|k: int| 0 <= k < s1.len() && s1[k] == b;
        if j != 0 {
            assert(named_lt(b, a));
        }
        if k != 0 {
            assert(named_lt(a, b));
        }
        assert(a == b);
        let r1 = s1.drop_first();
        let r2 = s2.drop_first();
        assert forall|x: NamedEdge| r1.contains(x) <==> r2.contains(x) by {
            if r1.contains(x) {
                let p = choose|p: int| 0 <= p < r1.len() && r1[p] == x;
                assert(named_lt(s1[0], s1[p + 1]));
                assert(s1.contains(x));
                let q = choose|q: int| 0 <= q < s2.len() && s2[q] == x;
                assert(q != 0);
                assert(r2[q - 1] == x);
            }
            if r2.contains(x) {
                let p = choose|p: int| 0 <= p < r2.len() && r2[p] == x;
                assert(named_lt(s2[0], s2[p + 1]));
                assert(s2.contains(x));
                let q = choose|q: int| 0 <= q < s1.len() && s1[q] == x;
                assert(q != 0);
                assert(r1[q - 1] == x);
            }
        }
        lemma_sorted_unique(r1, r2);
        assert(s1 =~= seq![a] + r1);
        assert(s2 =~= seq![b] + r2);
    }
}

/// Two distinct edges of a graph with distinct node names are ordered one way or
/// the other.
proof fn lemma_edge_lt_total(nodes: Seq<String>, x: Edge, e: Edge)
    requires
        forall|i: int, j: int| 0 <= i < j < nodes.len() ==> #[trigger] nodes[i]@ != #[trigger] nodes[j]@,
        valid_edge(x, nodes.len()),
        valid_edge(e, nodes.len()),
    ensures
        x == e || edge_lt(nodes, x, e) || edge_lt(nodes, e, x),
{
    lemma_name_lt_total(nodes[x.from as int]@, nodes[e.from as int]@);
    lemma_name_lt_total(nodes[x.to as int]@, nodes[e.to as int]@);
    if x.from != e.from {
        if x.from < e.from {
            assert(nodes[x.from as int]@ != nodes[e.from as int]@);
        } else {
            assert(nodes[e.from as int]@ != nodes[x.from as int]@);
        }
    }
    if x.to != e.to {
        if x.to < e.to {
            assert(nodes[x.to as int]@ != nodes[e.to as int]@);
        } else {
            assert(nodes[e.to as int]@ != nodes[x.to as int]@);
        }
    }
}

/// Kruskal's choice on node indices names the same edges as Kruskal's choice on
/// names, when each node's label names the representative of its component.
proof fn lemma_kruskal_names(nodes: Seq<String>, es: Seq<Edge>, labels: Seq<u32>, comp: spec_fn(Seq<char>) -> Seq<char>)
    requires
        forall|i: int, j: int| 0 <= i < j < nodes.len() ==> #[trigger] nodes[i]@ != #[trigger] nodes[j]@,
        labels.len() == nodes.len(),
        forall|i: int| 0 <= i < nodes.len() ==> (#[trigger] labels[i]) < nodes.len() && comp(nodes[i]@) == nodes[labels[i] as int]@,
        forall|k: int| 0 <= k < es.len() ==> valid_edge(#[trigger] es[k], nodes.len()),
    ensures
        kruskal(es, labels).map_values(naming(nodes)) == kruskal_named(es.map_values(naming(nodes)), comp),
    decreases es.len(),
{
    let f = naming(nodes);
    if es.len() == 0 {
        assert(kruskal(es, labels).map_values(f) =~= Seq::<NamedEdge>::empty());
    } else {
        let e = es[0];
        let rest = es.drop_first();
        let n = nodes.len();
        assert(valid_edge(es[0], n));
        let a = labels[e.from as int];
        let b = labels[e.to as int];
        let ne = es.map_values(f);
        assert(ne[0] == named(nodes, e));
        assert(ne.drop_first() =~= rest.map_values(f));
        assert forall|k: int| 0 <= k < rest.len() implies valid_edge(#[trigger] rest[k], n) by {
            assert(rest[k] == es[k + 1]);
        }
        let ca = comp(nodes[e.from as int]@);
        let cb = comp(nodes[e.to as int]@);
        assert(ca == nodes[a as int]@);
        assert(cb == nodes[b as int]@);
        let same = |i: int, j: int| nodes[i]@ == nodes[j]@ ==> i == j;
        assert(a != b <==> ca != cb) by {
            if a != b {
                if a < b {
                    assert(nodes[a as int]@ != nodes[b as int]@);
                } else {
                    assert(nodes[b as int]@ != nodes[a as int]@);
                }
            }
        }
        if a != b {
            let l2 = relabel(labels, a, b);
            let c2 = |x: Seq<char>| if comp(x) == ca { cb } else { comp(x) };
            assert forall|i: int| 0 <= i < n implies (#[trigger] l2[i]) < n && c2(nodes[i]@) == nodes[l2[i] as int]@ by {
                assert(labels[i] < n);
                if labels[i] != a {
                    if labels[i] < a {
                        assert(nodes[labels[i] as int]@ != nodes[a as int]@);
                    } else {
                        assert(nodes[a as int]@ != nodes[labels[i] as int]@);
                    }
                }
            }
            lemma_kruskal_names(nodes, rest, l2, c2);
            assert(kruskal(es, labels) == seq![e] + kruskal(rest, l2));
            assert(kruskal(es, labels).map_values(f) =~= seq![f(e)] + kruskal(rest, l2).map_values(f));
            assert(kruskal_named(ne, comp) == seq![ne[0]] + kruskal_named(ne.drop_first(), c2));
        } else {
            lemma_kruskal_names(nodes, rest, labels, comp);
            assert(kruskal(es, labels) == kruskal(rest, labels));
            assert(kruskal_named(ne, comp) == kruskal_named(ne.drop_first(), comp));
        }
    }
}

/// The spanning tree, named, is the spanning tree by names.
pub proof fn lemma_tree_by_names(g: Graph)
    requires
        g.wf(),
    ensures
        g.spanning_tree().map_values(naming(g.nodes@)) == g.named_tree(),
{
    let n = g.nodes@.len();
    let id = |x: Seq<char>| x;
    assert forall|i: int| 0 <= i < n implies (#[trigger] singletons(n)[i]) < n && id(g.nodes@[i]@) == g.nodes@[singletons(n)[i] as int]@ by {}
    lemma_kruskal_names(g.nodes@, g.edges@, singletons(n), id);
    assert(g.named_tree() == kruskal_named(g.edges@.map_values(naming(g.nodes@)), id));
}

/// Graphs that hold the same edges by names, whatever order the edges were added in
/// and however each numbered its nodes, have the same spanning tree by names.
pub proof fn lemma_spanning_tree_deterministic(g1: Graph, g2: Graph)
    requires
        g1.wf(),
        g2.wf(),
        g1.named_edges().to_set() == g2.named_edges().to_set(),
    ensures
        g1.named_tree() == g2.named_tree(),
        g1.spanning_tree().map_values(naming(g1.nodes@)) == g2.spanning_tree().map_values(naming(g2.nodes@)),
{
    assert forall|x: NamedEdge| g1.named_edges().contains(x) <==> g2.named_edges().contains(x) by {
        assert(g1.named_edges().to_set().contains(x) == g2.named_edges().to_set().contains(x));
        assert(g1.named_edges().to_set().contains(x) == g1.named_edges().contains(x));
        assert(g2.named_edges().to_set().contains(x) == g2.named_edges().contains(x));
    }
    assert(strictly_sorted_named(g1.named_edges())) by {
        assert forall|i: int, j: int| 0 <= i < j < g1.named_edges().len() implies named_lt(#[trigger] g1.named_edges()[i], #[trigger] g1.named_edges()[j]) by {
            assert(edge_lt(g1.nodes@, g1.edges@[i], g1.edges@[j]));
        }
    }
    assert(strictly_sorted_named(g2.named_edges())) by {
        assert forall|i: int, j: int| 0 <= i < j < g2.named_edges().len() implies named_lt(#[trigger] g2.named_edges()[i], #[trigger] g2.named_edges()[j]) by {
            assert(edge_lt(g2.nodes@, g2.edges@[i], g2.edges@[j]));
        }
    }
    lemma_sorted_unique(g1.named_edges(), g2.named_edges());
    lemma_tree_by_names(g1);
    lemma_tree_by_names(g2);
}

proof fn lemma_filter_keeps_all(s: Seq<Edge>, p: spec_fn(Edge) -> bool)
    requires
        forall|i: int| 0 <= i < s.len() ==> p(#[trigger] s[i]),
    ensures
        s.filter(p) == s,
    decreases s.len(),
{
    reveal_with_fuel(Seq::<_>::filter, 1);
    if s.len() > 0 {
        lemma_filter_keeps_all(s.drop_last(), p);
        assert(p(s[s.len() - 1]));
        assert(s.drop_last().push(s.last()) =~= s);
    }
}

/// Retracting an edge that was never added leaves the edges, and so the spanning
/// tree, as they were.
pub proof fn lemma_retract_absent_edge(g: Graph, from: u32, to: u32)
    requires
        g.wf(),
        forall|i: int| 0 <= i < g.edges@.len() ==> !(#[trigger] g.edges@[i].from == from && g.edges@[i].to == to),
    ensures
        g.edges@.filter(not_between(from, to)) == g.edges@,
        kruskal(g.edges@.filter(not_between(from, to)), singletons(g.nodes@.len()))
            == g.spanning_tree(),
{
    assert forall|i: int| 0 <= i < g.edges@.len() implies not_between(from, to)(
        #[trigger] g.edges@[i],
    ) by {}
    lemma_filter_keeps_all(g.edges@, not_between(from, to));
}

proof fn lemma_kruskal_subset(es: Seq<Edge>, labels: Seq<u32>)
    ensures
        forall|x: Edge| #[trigger] kruskal(es, labels).contains(x) ==> es.contains(x),
        kruskal(es, labels).len() <= es.len(),
    decreases es.len(),
{
    if es.len() > 0 {
        let e = es[0];
        let a = labels[e.from as int];
        let b = labels[e.to as int];
        let rest = es.drop_first();
        let l2 = if a != b { relabel(labels, a, b) } else { labels };
        lemma_kruskal_subset(rest, l2);
        assert forall|x: Edge| #[trigger] kruskal(es, labels).contains(x) implies es.contains(x) by {
            let t = kruskal(es, labels);
            let k = choose|k: int| 0 <= k < t.len() && t[k] == x;
            if a != b && k == 0 {
                assert(es[0] == x);
            } else {
                let j = if a != b { k - 1 } else { k };
                assert(kruskal(rest, l2)[j] == x);
                assert(kruskal(rest, l2).contains(x));
                let i = choose|i: int| 0 <= i < rest.len() && rest[i] == x;
                assert(es[i + 1] == x);
            }
        }
    }
}

/// The spanning tree is made of the graph's own edges, each taken once, and so
/// joins only existing, distinct nodes.
pub proof fn lemma_spanning_tree_edges(g: Graph)
    requires
        g.wf(),
    ensures
        forall|x: Edge| #[trigger] g.spanning_tree().contains(x) ==> g.edges@.contains(x)
            && valid_edge(x, g.nodes@.len()),
        g.spanning_tree().len() <= g.edges@.len(),
{
    lemma_kruskal_subset(g.edges@, singletons(g.nodes@.len()));
    assert forall|x: Edge| #[trigger] g.spanning_tree().contains(x) implies g.edges@.contains(x)
        && valid_edge(x, g.nodes@.len()) by {
        let i = choose|i: int| 0 <= i < g.edges@.len() && g.edges@[i] == x;
    }
}

} // verus!
