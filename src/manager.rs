use vstd::prelude::*;

use crate::connection::{
    closed, step, sweep_step, Action, Connection, ConnectionError, DispatchError, HandshakeState,
    Message, SweepAction,
};
use crate::protocol::Request;
use crate::graph::{not_between, Edge, Graph};
use crate::text::same_text;

verus! {

/// The live connections of the daemon, the edge each one published, and the graph.
#[derive(Debug)]
pub struct Manager {
    pub graph: Graph,
    /// The local node's index in the graph.
    pub me: u32,
    pub connections: Vec<Connection>,
    /// The edge that connection `i` published, if any.
    pub published: Vec<Option<Edge>>,
}

/// A connection with the edge it published, as the manager holds them.
pub open spec fn entries(cs: Seq<Connection>, ps: Seq<Option<Edge>>) -> Seq<(Connection, Option<Edge>)> {
    Seq::new(cs.len(), |i: int| (cs[i], ps[i]))
}

/// Whether an entry's connection is still open.
pub open spec fn is_open() -> spec_fn((Connection, Option<Edge>)) -> bool {
    |p: (Connection, Option<Edge>)| p.0.state != HandshakeState::Closed
}

/// Whether one of the first `upto` connections was closed by the sweep whose
/// decisions are `acts`, having published an edge with the ends of `x`.
pub open spec fn retracted(acts: Seq<SweepAction>, ps: Seq<Option<Edge>>, upto: int, x: Edge) -> bool
    decreases upto,
{
    if upto <= 0 {
        false
    } else {
        retracted(acts, ps, upto - 1, x) || (acts[upto - 1] == SweepAction::Close && match ps[upto - 1] {
            Some(e) => x.from == e.from && x.to == e.to,
            None => false,
        })
    }
}

proof fn lemma_filter_contains_iff(s: Seq<Edge>, p: spec_fn(Edge) -> bool, x: Edge)
    ensures
        s.filter(p).contains(x) <==> s.contains(x) && p(x),
{
    broadcast use vstd::seq_lib::group_filter_ensures;
    if s.filter(p).contains(x) {
        s.lemma_filter_contains_rev(p, x);
        let k = choose|k: int| 0 <= k < s.filter(p).len() && s.filter(p)[k] == x;
        assert(p(s.filter(p)[k]));
    }
    if s.contains(x) && p(x) {
        let k = choose|k: int| 0 <= k < s.len() && s[k] == x;
        s.lemma_filter_contains(p, k);
    }
}

proof fn lemma_retracted_prefix(a: Seq<SweepAction>, b: Seq<SweepAction>, ps: Seq<Option<Edge>>, upto: int, x: Edge)
    requires
        0 <= upto <= a.len(),
        upto <= b.len(),
        forall|k: int| 0 <= k < upto ==> a[k] == b[k],
    ensures
        retracted(a, ps, upto, x) == retracted(b, ps, upto, x),
    decreases upto,
{
    if upto > 0 {
        lemma_retracted_prefix(a, b, ps, upto - 1, x);
    }
}

impl Manager {
    /// Graph and connections are well formed, one published slot per connection, and
    /// only an active connection has a published edge.
    pub open spec fn wf(&self) -> bool {
        self.wf_except(-1)
    }

    /// `wf`, except that connection `skip` may be closed with its edge still published.
    pub open spec fn wf_except(&self, skip: int) -> bool {
        &&& self.graph.wf()
        &&& self.me < self.graph.nodes@.len()
        &&& self.connections@.len() == self.published@.len()
        &&& forall|i: int| 0 <= i < self.connections@.len() ==> (#[trigger] self.connections@[i]).wf()
        &&& forall|i: int|
            0 <= i < self.connections@.len() && i != skip && (#[trigger] self.connections@[i]).state
                == HandshakeState::Closed ==> self.published@[i] is None
        &&& forall|i: int|
            0 <= i < self.connections@.len() && i != skip && (#[trigger] self.published@[i]) is Some
                ==> self.connections@[i].state == HandshakeState::Active
    }

    /// A manager for the daemon called `name`, with no connections yet.
    pub fn new(name: &str) -> (r: Manager)
        ensures
            r.wf(),
            r.graph.nodes@.len() == 1,
            r.graph.nodes@[0]@ == name@,
            r.graph.edges@.len() == 0,
            r.me == 0,
            r.connections@.len() == 0,
    {
        let mut graph = Graph::new();
        let me = match graph.add_node(name) {
            Some(i) => i,
            None => 0,
        };
        Manager { graph, me, connections: Vec::new(), published: Vec::new() }
    }

    /// Takes over a new connection; returns its index.
    pub fn add_connection(&mut self, c: Connection) -> (r: usize)
        requires
            old(self).wf(),
            c.wf(),
        ensures
            final(self).wf(),
            r == old(self).connections@.len(),
            final(self).connections@ == old(self).connections@.push(c),
            final(self).published@ == old(self).published@.push(None),
            final(self).graph == old(self).graph,
            final(self).me == old(self).me,
    {
        let r = self.connections.len();
        self.connections.push(c);
        self.published.push(None);
        r
    }

    /// Whether connection `i` claims a name that is already taken: by another active
    /// connection, or by the local node.
    pub open spec fn name_taken(&self, i: int) -> bool {
        self.connections@[i].name@ == self.graph.nodes@[self.me as int]@ || exists|j: int|
            0 <= j < self.connections@.len() && j != i && (#[trigger] self.connections@[j]).state
                == HandshakeState::Active && self.connections@[j].name@ == self.connections@[i].name@
    }

    /// Publishes the node and edge of connection `i`, which has just become active. A
    /// connection whose name is taken is closed with `DuplicateIdentity`; the first
    /// one stays. Returns whether an edge was published.
    pub fn publish(&mut self, i: usize) -> (r: bool)
        requires
            old(self).wf(),
            i < old(self).connections@.len(),
            old(self).connections@[i as int].state == HandshakeState::Active,
            old(self).published@[i as int] is None,
        ensures
            final(self).wf(),
            final(self).me == old(self).me,
            final(self).graph.nodes@.len() >= old(self).graph.nodes@.len(),
            final(self).graph.nodes@.subrange(0, old(self).graph.nodes@.len() as int) == old(self).graph.nodes@,
            final(self).connections@.len() == old(self).connections@.len(),
            old(self).name_taken(i as int) ==> !r && final(self).graph == old(self).graph
                && final(self).published@ == old(self).published@
                && final(self).connections@ == old(self).connections@.update(
                i as int,
                closed(old(self).connections@[i as int], ConnectionError::DuplicateIdentity),
            ),
            !old(self).name_taken(i as int) ==> final(self).connections@ == old(self).connections@,
            r ==> !old(self).name_taken(i as int),
            r ==> (final(self).published@[i as int] matches Some(e) && e.from == final(self).me
                && e.to < final(self).graph.nodes@.len() && final(self).graph.nodes@[e.to as int]@
                == old(self).connections@[i as int].name@ && e.weight == old(self).connections@[i as int].estimated_weight
                && final(self).graph.edges@.contains(e)
                && final(self).graph.edges@.to_set() == old(self).graph.edges@.to_set().insert(e)),
            !r && !old(self).name_taken(i as int) ==> old(self).graph.nodes@.len() == u32::MAX
                && final(self).graph == old(self).graph && final(self).published@ == old(self).published@,
    {
        let n = self.connections.len();
        let mut taken = same_text(self.connections[i].name.as_str(), self.graph.nodes[self.me as usize].as_str());
        let mut j: usize = 0;
        while j < n && !taken
            invariant
                self.wf(),
                self == old(self),
                n == self.connections@.len(),
                i < n,
                j <= n,
                taken ==> self.name_taken(i as int),
                !taken ==> self.connections@[i as int].name@ != self.graph.nodes@[self.me as int]@,
                !taken ==> forall|k: int|
                    0 <= k < j && k != i ==> !((#[trigger] self.connections@[k]).state
                        == HandshakeState::Active && self.connections@[k].name@
                        == self.connections@[i as int].name@),
            decreases n - j,
        {
            if j != i && self.connections[j].state == HandshakeState::Active && same_text(
                self.connections[j].name.as_str(),
                self.connections[i].name.as_str(),
            ) {
                taken = true;
            }
            j = j + 1;
        }
        if taken {
            self.connections[i].close(ConnectionError::DuplicateIdentity);
            assert(self.graph.nodes@.subrange(0, self.graph.nodes@.len() as int) =~= self.graph.nodes@);
            return false;
        }
        let node = match self.graph.add_node(self.connections[i].name.as_str()) {
            Some(node) => node,
            None => {
                assert(self.graph.nodes@.subrange(0, self.graph.nodes@.len() as int) =~= self.graph.nodes@);
                return false;
            },
        };
        assert(self.graph.nodes@.subrange(0, old(self).graph.nodes@.len() as int) =~= old(self).graph.nodes@);
        let e = Edge { from: self.me, to: node, weight: self.connections[i].estimated_weight };
        let added = self.graph.add_edge(e);
        proof {
            if !added {
                assert(old(self).graph.edges@ == self.graph.edges@);
                assert(self.graph.edges@.to_set().insert(e) =~= self.graph.edges@.to_set());
            }
            assert(self.graph.edges@.to_set().contains(e) == self.graph.edges@.contains(e));
        }
        self.published.set(i, Some(e));
        true
    }

    /// Whether a connection that is not closed claims `name`; a configured peer
    /// without one is to be dialled.
    pub fn has_live(&self, name: &str) -> (r: bool)
        ensures
            r == exists|i: int|
                0 <= i < self.connections@.len() && (#[trigger] self.connections@[i]).state
                    != HandshakeState::Closed && self.connections@[i].name@ == name@,
    {
        let mut i: usize = 0;
        while i < self.connections.len()
            invariant
                i <= self.connections@.len(),
                forall|k: int|
                    0 <= k < i ==> !((#[trigger] self.connections@[k]).state != HandshakeState::Closed
                        && self.connections@[k].name@ == name@),
            decreases self.connections@.len() - i,
        {
            if self.connections[i].state != HandshakeState::Closed && same_text(
                self.connections[i].name.as_str(),
                name,
            ) {
                return true;
            }
            i = i + 1;
        }
        false
    }

    /// Applies an `AddEdge` or `DelEdge` request for the edge from node `from` to node
    /// `to`. `AddEdge` learns both nodes and adds the edge; `DelEdge` retracts every
    /// edge between them. Returns the edge added or `None`; the graph changed exactly
    /// when an edge was added or one was retracted.
    pub fn apply_edge_request(&mut self, req: Request, from: &str, to: &str, weight: u32) -> (r: Option<Edge>)
        requires
            old(self).wf(),
        ensures
            final(self).wf(),
            final(self).me == old(self).me,
            final(self).connections@ == old(self).connections@,
            final(self).published@ == old(self).published@,
            final(self).graph.nodes@.len() >= old(self).graph.nodes@.len(),
            final(self).graph.nodes@.subrange(0, old(self).graph.nodes@.len() as int) == old(self).graph.nodes@,
            r matches Some(e) ==> req == Request::AddEdge && e.weight == weight
                && final(self).graph.nodes@[e.from as int]@ == from@ && final(self).graph.nodes@[e.to as int]@ == to@
                && !old(self).graph.edges@.contains(e)
                && final(self).graph.edges@.to_set() == old(self).graph.edges@.to_set().insert(e),
            req == Request::AddEdge && r is None ==> final(self).graph.edges@ == old(self).graph.edges@,
            req == Request::AddEdge && r is None && from@ != to@ && old(self).graph.nodes@.len() + 2 <= u32::MAX ==>
                exists|k: int| 0 <= k < old(self).graph.edges@.len() && (#[trigger] old(self).graph.edges@[k]).weight == weight
                    && old(self).graph.nodes@[old(self).graph.edges@[k].from as int]@ == from@
                    && old(self).graph.nodes@[old(self).graph.edges@[k].to as int]@ == to@,
            req == Request::DelEdge ==> r is None && final(self).graph.nodes@ == old(self).graph.nodes@
                && forall|x: Edge| #[trigger] final(self).graph.edges@.contains(x) <==> old(self).graph.edges@.contains(x)
                    && !(final(self).graph.nodes@[x.from as int]@ == from@ && final(self).graph.nodes@[x.to as int]@ == to@),
            req != Request::AddEdge && req != Request::DelEdge ==> *final(self) == *old(self),
    {
        if req == Request::AddEdge {
            let a = match self.graph.add_node(from) {
                Some(a) => a,
                None => {
                    assert(self.graph.nodes@.subrange(0, self.graph.nodes@.len() as int) =~= self.graph.nodes@);
                    return None;
                },
            };
            let ghost mid = self.graph.nodes@;
            let b = match self.graph.add_node(to) {
                Some(b) => b,
                None => {
                    assert(self.graph.nodes@.subrange(0, old(self).graph.nodes@.len() as int) =~= old(self).graph.nodes@);
                    return None;
                },
            };
            assert(self.graph.nodes@.subrange(0, old(self).graph.nodes@.len() as int) =~= old(self).graph.nodes@);
            assert(self.graph.nodes@[a as int] == mid[a as int]);
            let e = Edge { from: a, to: b, weight };
            let ghost g1 = self.graph;
            if self.graph.add_edge(e) {
                assert(!old(self).graph.edges@.contains(e));
                Some(e)
            } else {
                proof {
                    if from@ != to@ && old(self).graph.nodes@.len() + 2 <= u32::MAX {
                        assert(a != b);
                        assert(g1.edges@.contains(e));
                        let k = choose|k: int| 0 <= k < g1.edges@.len() && g1.edges@[k] == e;
                        assert(old(self).graph.nodes@[e.from as int] == self.graph.nodes@[e.from as int]) by {
                            assert(e.from < old(self).graph.nodes@.len());
                        }
                        assert(old(self).graph.nodes@[e.to as int] == self.graph.nodes@[e.to as int]) by {
                            assert(e.to < old(self).graph.nodes@.len());
                        }
                    }
                }
                None
            }
        } else if req == Request::DelEdge {
            assert(self.graph.nodes@.subrange(0, self.graph.nodes@.len() as int) =~= self.graph.nodes@);
            let ghost g0 = self.graph;
            match self.graph.find_node(from) {
                Some(a) => match self.graph.find_node(to) {
                    Some(b) => {
                        self.graph.remove_edge(a, b);
                        proof {
                            assert forall|x: Edge| #[trigger] self.graph.edges@.contains(x) <==> g0.edges@.contains(x)
                                && !(self.graph.nodes@[x.from as int]@ == from@ && self.graph.nodes@[x.to as int]@ == to@) by {
                                lemma_filter_contains_iff(g0.edges@, not_between(a, b), x);
                                if g0.edges@.contains(x) {
                                    let k = choose|k: int| 0 <= k < g0.edges@.len() && g0.edges@[k] == x;
                                    assert(crate::graph::valid_edge(g0.edges@[k], g0.nodes@.len()));
                                    if x.from != a {
                                        assert(g0.nodes@[x.from as int]@ != g0.nodes@[a as int]@);
                                    }
                                    if x.to != b {
                                        assert(g0.nodes@[x.to as int]@ != g0.nodes@[b as int]@);
                                    }
                                }
                            }
                        }
                        None
                    },
                    None => {
                        proof {
                            assert forall|x: Edge| #[trigger] self.graph.edges@.contains(x) implies !(self.graph.nodes@[x.to as int]@ == to@) by {
                                let k = choose|k: int| 0 <= k < g0.edges@.len() && g0.edges@[k] == x;
                                assert(crate::graph::valid_edge(g0.edges@[k], g0.nodes@.len()));
                            }
                        }
                        None
                    },
                },
                None => {
                    proof {
                        assert forall|x: Edge| #[trigger] self.graph.edges@.contains(x) implies !(self.graph.nodes@[x.from as int]@ == from@) by {
                            let k = choose|k: int| 0 <= k < g0.edges@.len() && g0.edges@[k] == x;
                            assert(crate::graph::valid_edge(g0.edges@[k], g0.nodes@.len()));
                        }
                    }
                    None
                },
            }
        } else {
            None
        }
    }

    /// Withdraws the edge that connection `i` published, if it published one.
    pub fn retract(&mut self, i: usize)
        requires
            old(self).wf_except(i as int),
            i < old(self).connections@.len(),
        ensures
            final(self).wf(),
            final(self).connections@ == old(self).connections@,
            final(self).me == old(self).me,
            final(self).graph.nodes@ == old(self).graph.nodes@,
            final(self).published@ == old(self).published@.update(i as int, None),
            old(self).published@[i as int] matches Some(e) ==> final(self).graph.edges@ == old(self).graph.edges@.filter(not_between(e.from, e.to)),
            old(self).published@[i as int] is None ==> final(self).graph == old(self).graph,
    {
        match self.published[i] {
            Some(e) => {
                self.graph.remove_edge(e.from, e.to);
            },
            None => {},
        }
        self.published.set(i, None);
    }

    /// Removes every closed connection, with its slot; the others keep their order.
    pub fn drop_closed(&mut self)
        requires
            old(self).wf(),
        ensures
            final(self).wf(),
            final(self).graph == old(self).graph,
            final(self).me == old(self).me,
            entries(final(self).connections@, final(self).published@) == entries(
                old(self).connections@,
                old(self).published@,
            ).filter(is_open()),
    {
        let ghost all = entries(self.connections@, self.published@);
        let ghost oc = self.connections@;
        let n = self.connections.len();
        let mut kc: Vec<Connection> = Vec::new();
        let mut kp: Vec<Option<Edge>> = Vec::new();
        let mut i: usize = 0;
        proof {
            reveal_with_fuel(Seq::<_>::filter, 1);
            assert(all.subrange(0, 0).filter(is_open()) =~= entries(kc@, kp@));
        }
        while i < n
            invariant
                self.wf(),
                self.graph == old(self).graph,
                self.me == old(self).me,
                n == all.len(),
                i <= n,
                all == entries(old(self).connections@, old(self).published@),
                oc == old(self).connections@,
                self.connections@.len() == n - i,
                forall|k: int| 0 <= k < n - i ==> self.connections@[k] == all[k + i].0 && self.published@[k] == all[k + i].1,
                kc@.len() == kp@.len(),
                entries(kc@, kp@) == all.subrange(0, i as int).filter(is_open()),
                forall|k: int| 0 <= k < kc@.len() ==> (#[trigger] kc@[k]).wf() && kc@[k].state != HandshakeState::Closed,
                forall|k: int| 0 <= k < kp@.len() && (#[trigger] kp@[k]) is Some ==> kc@[k].state == HandshakeState::Active,
                old(self).wf(),
            decreases n - i,
        {
            let c = self.connections.remove(0);
            let p = self.published.remove(0);
            let ghost upto = all.subrange(0, i + 1);
            proof {
                reveal_with_fuel(Seq::<_>::filter, 1);
                assert(upto.drop_last() =~= all.subrange(0, i as int));
                assert(upto.last() == (c, p));
                assert(oc[i as int].wf());
                assert(all[i as int] == (old(self).connections@[i as int], old(self).published@[i as int]));
                if p is Some {
                    assert(old(self).published@[i as int] is Some);
                }
            }
            if c.state != HandshakeState::Closed {
                let ghost before = entries(kc@, kp@);
                kc.push(c);
                kp.push(p);
                assert(entries(kc@, kp@) =~= before.push((c, p)));
            }
            i = i + 1;
        }
        self.connections = kc;
        self.published = kp;
        assert(all.subrange(0, n as int) =~= all);
    }

    /// Hands request `m` to connection `i`. A connection that ends up closed has its
    /// edge withdrawn and leaves the set; the others keep their places.
    pub fn handle(&mut self, i: usize, m: Message) -> (r: Result<Action, DispatchError>)
        requires
            old(self).wf(),
            i < old(self).connections@.len(),
        ensures
            final(self).wf(),
            final(self).me == old(self).me,
            final(self).graph.nodes@ == old(self).graph.nodes@,
            r == step(old(self).connections@[i as int], m).1,
            old(self).connections@[i as int].state != HandshakeState::Active ==> final(self).graph == old(self).graph,
            step(old(self).connections@[i as int], m).0.state != HandshakeState::Closed ==> final(self).connections@
                == old(self).connections@.update(i as int, step(old(self).connections@[i as int], m).0)
                && final(self).published@ == old(self).published@ && final(self).graph == old(self).graph,
            step(old(self).connections@[i as int], m).0.state == HandshakeState::Closed ==> final(self).connections@
                == old(self).connections@.remove(i as int) && final(self).published@ == old(self).published@.remove(i as int)
                && final(self).graph.edges@ == match old(self).published@[i as int] {
                    Some(e) => old(self).graph.edges@.filter(not_between(e.from, e.to)),
                    None => old(self).graph.edges@,
                },
    {
        let ghost m0 = m;
        let r = self.connections[i].dispatch(m);
        if self.connections[i].state == HandshakeState::Closed {
            self.retract(i);
            let _gone = self.connections.remove(i);
            let _slot = self.published.remove(i);
        }
        r
    }

    /// The periodic sweep at `now`: each connection is checked as `Connection::sweep`
    /// says; each one it closes has its edge withdrawn, and every closed connection
    /// leaves the set. Nodes are kept.
    pub fn sweep(&mut self, now: u64, ping_interval: u64, ping_timeout: u64) -> (r: Vec<SweepAction>)
        requires
            old(self).wf(),
        ensures
            final(self).wf(),
            final(self).me == old(self).me,
            final(self).graph.nodes@ == old(self).graph.nodes@,
            r@.len() == old(self).connections@.len(),
            forall|i: int|
                0 <= i < r@.len() ==> #[trigger] r@[i] == sweep_step(
                    old(self).connections@[i],
                    now,
                    ping_interval,
                    ping_timeout,
                ).1,
            entries(final(self).connections@, final(self).published@) == entries(
                Seq::new(r@.len(), |i: int| sweep_step(old(self).connections@[i], now, ping_interval, ping_timeout).0),
                Seq::new(r@.len(), |i: int| if r@[i] == SweepAction::Close { None } else { old(self).published@[i] }),
            ).filter(is_open()),
            forall|x: Edge|
                #[trigger] final(self).graph.edges@.contains(x) <==> old(self).graph.edges@.contains(x)
                    && !retracted(r@, old(self).published@, r@.len() as int, x),
    {
        let n = self.connections.len();
        let mut actions: Vec<SweepAction> = Vec::new();
        let mut i: usize = 0;
        while i < n
            invariant
                self.wf(),
                self.me == old(self).me,
                self.graph.nodes@ == old(self).graph.nodes@,
                n == self.connections@.len(),
                n == old(self).connections@.len(),
                i <= n,
                actions@.len() == i,
                forall|k: int| i <= k < n ==> self.connections@[k] == old(self).connections@[k],
                forall|k: int| i <= k < n ==> self.published@[k] == old(self).published@[k],
                forall|k: int|
                    0 <= k < i ==> (self.connections@[k], #[trigger] actions@[k]) == sweep_step(
                        old(self).connections@[k],
                        now,
                        ping_interval,
                        ping_timeout,
                    ),
                forall|k: int|
                    0 <= k < i ==> self.published@[k] == if #[trigger] actions@[k] == SweepAction::Close {
                        None
                    } else {
                        old(self).published@[k]
                    },
                forall|x: Edge|
                    #[trigger] self.graph.edges@.contains(x) <==> old(self).graph.edges@.contains(x)
                        && !retracted(actions@, old(self).published@, i as int, x),
            decreases n - i,
        {
            let a = self.connections[i].sweep(now, ping_interval, ping_timeout);
            let ghost acts0 = actions@;
            actions.push(a);
            proof {
                assert forall|x: Edge| retracted(actions@, old(self).published@, i as int, x)
                    == retracted(acts0, old(self).published@, i as int, x) by {
                    lemma_retracted_prefix(acts0, actions@, old(self).published@, i as int, x);
                }
            }
            if a == SweepAction::Close {
                let ghost g0 = self.graph;
                self.retract(i);
                proof {
                    match old(self).published@[i as int] {
                        Some(e) => {
                            assert forall|x: Edge| #[trigger] self.graph.edges@.contains(x) <==> old(self).graph.edges@.contains(x)
                                && !retracted(actions@, old(self).published@, i + 1, x) by {
                                lemma_filter_contains_iff(g0.edges@, not_between(e.from, e.to), x);
                            }
                        },
                        None => {},
                    }
                }
            }
            i = i + 1;
        }
        let ghost swept = self.connections@;
        let ghost slots = self.published@;
        assert(entries(swept, slots) =~= entries(
            Seq::new(n as nat, |i: int| sweep_step(old(self).connections@[i], now, ping_interval, ping_timeout).0),
            Seq::new(n as nat, |i: int| if actions@[i] == SweepAction::Close { None } else { old(self).published@[i] }),
        ));
        self.drop_closed();
        actions
    }
}

} // verus!
