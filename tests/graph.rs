use tinc_rs::connection::{Action, Connection, ConnectionError, HandshakeState, Message, SweepAction};
use tinc_rs::graph::{Edge, Graph};
use tinc_rs::manager::Manager;
use tinc_rs::protocol::{Request, PROT_MAJOR};

fn edge(from: u32, to: u32, weight: u32) -> Edge {
    Edge { from, to, weight }
}

fn graph(names: &[&str], edges: &[Edge]) -> Graph {
    let mut g = Graph::new();
    for n in names {
        g.add_node(n).unwrap();
    }
    for e in edges {
        g.add_edge(*e);
    }
    g
}

#[test]
fn lower_weight_duplicate_path_wins() {
    let mut g = graph(&["x", "y"], &[]);
    assert!(g.add_edge(edge(0, 1, 10)));
    assert!(g.add_edge(edge(0, 1, 5)));
    assert_eq!(g.recompute_spanning_tree(), vec![edge(0, 1, 5)]);
    assert_eq!(g.edges.len(), 2);
}

#[test]
fn same_edges_any_order_same_tree() {
    let es = [edge(0, 1, 4), edge(1, 2, 4), edge(0, 2, 4), edge(2, 3, 1), edge(3, 0, 9), edge(1, 3, 2)];
    let names = ["a", "b", "c", "d"];
    let t1 = graph(&names, &es).recompute_spanning_tree();
    let mut rev = es;
    rev.reverse();
    let t2 = graph(&names, &rev).recompute_spanning_tree();
    let t3 = graph(&names, &[es[3], es[0], es[5], es[2], es[1], es[4]]).recompute_spanning_tree();
    assert_eq!(t1, vec![edge(2, 3, 1), edge(1, 3, 2), edge(0, 1, 4)]);
    assert_eq!(t1, t2);
    assert_eq!(t1, t3);
}

#[test]
fn retracting_absent_edge_changes_nothing() {
    let mut g = graph(&["a", "b", "c"], &[edge(0, 1, 3), edge(1, 2, 3)]);
    let before = g.recompute_spanning_tree();
    g.remove_edge(0, 2);
    assert_eq!(g.edges, vec![edge(0, 1, 3), edge(1, 2, 3)]);
    assert_eq!(g.recompute_spanning_tree(), before);
    g.remove_edge(0, 1);
    assert_eq!(g.edges, vec![edge(1, 2, 3)]);
}

#[test]
fn add_edge_rejects_duplicates_and_invalid() {
    let mut g = graph(&["a", "b"], &[]);
    assert!(g.add_edge(edge(0, 1, 1)));
    assert!(!g.add_edge(edge(0, 1, 1)));
    assert!(!g.add_edge(edge(0, 0, 1)));
    assert!(!g.add_edge(edge(0, 2, 1)));
    assert_eq!(g.edges.len(), 1);
    assert_eq!(g.add_node("b"), Some(1));
    assert_eq!(g.find_node("c"), None);
}

#[test]
fn disconnected_components_each_get_a_tree() {
    let g = graph(&["a", "b", "c", "d", "e"], &[edge(0, 1, 2), edge(2, 3, 1), edge(3, 2, 7)]);
    assert_eq!(g.recompute_spanning_tree(), vec![edge(2, 3, 1), edge(0, 1, 2)]);
}

fn handshake(c: &mut Connection, name: &str) {
    let m = |code: i32| Message { request: Request::from_code(code), name: name.to_string(), major: PROT_MAJOR, verified: true, now: 1 };
    for code in 0..4 {
        c.dispatch(m(code)).unwrap();
    }
    assert_eq!(c.dispatch(m(4)), Ok(Action::Activated));
}

#[test]
fn manager_publishes_and_sweeps() {
    let mut mgr = Manager::new("alice");
    let mut c = Connection::new_incoming(0);
    handshake(&mut c, "bob");
    c.estimated_weight = 7;
    let i = mgr.add_connection(c);
    assert!(mgr.publish(i));
    assert_eq!(mgr.graph.edges, vec![edge(0, 1, 7)]);

    let mut dup = Connection::new_incoming(0);
    handshake(&mut dup, "bob");
    let j = mgr.add_connection(dup);
    assert!(!mgr.publish(j));
    assert_eq!(mgr.connections[j].closed_by, Some(ConnectionError::DuplicateIdentity));
    assert_eq!(mgr.connections[i].state, HandshakeState::Active);

    let mut other = Connection::new_incoming(490);
    handshake(&mut other, "carol");
    other.last_activity = 490;
    let k = mgr.add_connection(other);
    assert!(mgr.publish(k));
    assert_eq!(mgr.graph.edges.len(), 2);

    let actions = mgr.sweep(500, 50, 200);
    assert_eq!(actions, vec![SweepAction::Close, SweepAction::Keep, SweepAction::Keep]);
    assert_eq!(mgr.connections.len(), 1);
    assert_eq!(mgr.connections[0].name, "carol");
    assert_eq!(mgr.published, vec![Some(edge(0, 2, 0))]);
    assert_eq!(mgr.graph.edges, vec![edge(0, 2, 0)]);
    assert_eq!(mgr.graph.nodes.len(), 3);
}

#[test]
fn challenge_in_expect_id_leaves_the_set() {
    let mut mgr = Manager::new("alice");
    let mut c = Connection::new_incoming(0);
    handshake(&mut c, "bob");
    mgr.add_connection(c);
    mgr.publish(0);
    let fresh = mgr.add_connection(Connection::new_incoming(0));
    let m = Message { request: Request::from_code(2), name: String::new(), major: PROT_MAJOR, verified: true, now: 1 };
    assert_eq!(mgr.handle(fresh, m), Err(tinc_rs::connection::DispatchError::ProtocolViolation));
    assert_eq!(mgr.connections.len(), 1);
    assert_eq!(mgr.connections[0].name, "bob");
    assert_eq!(mgr.connections[0].state, HandshakeState::Active);
    assert_eq!(mgr.graph.edges, vec![edge(0, 1, 0)]);
}

#[test]
fn handled_ping_keeps_connection() {
    let mut mgr = Manager::new("alice");
    let mut c = Connection::new_incoming(0);
    handshake(&mut c, "bob");
    mgr.add_connection(c);
    let m = Message { request: Some(Request::Ping), name: String::new(), major: PROT_MAJOR, verified: true, now: 9 };
    assert_eq!(mgr.handle(0, m), Ok(Action::Reply(Request::Pong)));
    assert_eq!(mgr.connections[0].last_activity, 9);
}

#[test]
fn peer_claiming_our_name_is_refused() {
    let mut mgr = Manager::new("alice");
    let mut c = Connection::new_incoming(0);
    handshake(&mut c, "alice");
    let i = mgr.add_connection(c);
    assert!(!mgr.publish(i));
    assert!(mgr.graph.edges.is_empty());
}

#[test]
fn live_connections_by_name() {
    let mut mgr = Manager::new("alice");
    let mut c = Connection::new_incoming(0);
    handshake(&mut c, "bob");
    let i = mgr.add_connection(c);
    assert!(mgr.has_live("bob"));
    assert!(!mgr.has_live("carol"));
    mgr.connections[i].close(ConnectionError::SocketError);
    assert!(!mgr.has_live("bob"));
    mgr.retract(i);
    mgr.drop_closed();
    assert!(mgr.connections.is_empty());
}

#[test]
fn edge_requests_reach_the_graph() {
    let mut mgr = Manager::new("alice");
    let e = mgr.apply_edge_request(Request::AddEdge, "x", "y", 10).unwrap();
    assert_eq!(e, edge(1, 2, 10));
    assert_eq!(mgr.apply_edge_request(Request::AddEdge, "x", "y", 5), Some(edge(1, 2, 5)));
    assert_eq!(mgr.apply_edge_request(Request::AddEdge, "x", "y", 5), None);
    assert_eq!(mgr.apply_edge_request(Request::AddEdge, "x", "x", 1), None);
    assert_eq!(mgr.graph.recompute_spanning_tree(), vec![edge(1, 2, 5)]);
    assert_eq!(mgr.graph.edges.len(), 2);
    assert_eq!(mgr.apply_edge_request(Request::DelEdge, "x", "z", 0), None);
    assert_eq!(mgr.graph.edges.len(), 2);
    assert_eq!(mgr.apply_edge_request(Request::DelEdge, "x", "y", 0), None);
    assert!(mgr.graph.edges.is_empty());
    assert_eq!(mgr.graph.nodes.len(), 3);
    assert_eq!(mgr.apply_edge_request(Request::Ping, "x", "y", 1), None);
    assert!(mgr.graph.edges.is_empty());
}

fn named_tree(mgr: &Manager) -> Vec<(String, String, u32)> {
    mgr.graph
        .recompute_spanning_tree()
        .iter()
        .map(|e| (mgr.graph.nodes[e.from as usize].clone(), mgr.graph.nodes[e.to as usize].clone(), e.weight))
        .collect()
}

#[test]
fn ties_are_broken_by_names_not_numbering() {
    let mut first = Manager::new("m");
    for (a, b) in [("a", "b"), ("b", "c"), ("a", "c")] {
        first.apply_edge_request(Request::AddEdge, a, b, 1).unwrap();
    }
    let mut second = Manager::new("m");
    for (a, b) in [("b", "c"), ("a", "c"), ("a", "b")] {
        second.apply_edge_request(Request::AddEdge, a, b, 1).unwrap();
    }
    assert_ne!(first.graph.nodes, second.graph.nodes);
    let expected = vec![("a".to_string(), "b".to_string(), 1), ("a".to_string(), "c".to_string(), 1)];
    assert_eq!(named_tree(&first), expected);
    assert_eq!(named_tree(&second), expected);
}
