use patchwork::graph::{Connection, Graph};

fn wire(from_node: u64, from_port: usize, to_node: u64, to_port: usize) -> Connection {
    Connection { from_node, from_port, to_node, to_port, label: String::new() }
}

#[test]
fn new_graph_is_empty_and_ids_start_at_one() {
    let mut g: Graph<&str> = Graph::new();
    assert!(g.nodes().is_empty());
    assert!(g.connections().is_empty());
    assert_eq!(g.add_node("a"), 1);
    assert_eq!(g.add_node("b"), 2);
    assert_eq!(g.add_node("c"), 3);
    assert!(g.contains_node(2));
    assert!(!g.contains_node(4));
    assert_eq!(g.node(3), Some(&"c"));
    assert_eq!(g.node(9), None);
}

#[test]
fn add_connection_replaces_the_wire_into_an_input() {
    let mut g: Graph<u8> = Graph::new();
    let a = g.add_node(0);
    let b = g.add_node(0);
    let c = g.add_node(0);
    g.add_connection(a, 0, c, 1);
    g.add_connection(b, 2, c, 1);
    assert_eq!(g.connections().len(), 1);
    let w = &g.connections()[0];
    assert_eq!((w.from_node, w.from_port, w.to_node, w.to_port), (b, 2, c, 1));
    assert_eq!(w.label, "");
    assert_eq!(g.input_sources(c, 3), vec![None, Some((b, 2)), None]);
}

#[test]
fn disconnect_counts_removed_wires() {
    let mut g: Graph<u8> = Graph::new();
    let a = g.add_node(0);
    let b = g.add_node(0);
    g.add_connection(a, 0, b, 0);
    g.add_connection(a, 0, b, 1);
    assert_eq!(g.disconnect(a, 0, b, 1), 1);
    assert_eq!(g.disconnect(a, 0, b, 1), 0);
    assert_eq!(g.input_sources(b, 2), vec![Some((a, 0)), None]);
}

#[test]
fn disconnect_after_connect_leaves_input_unfed() {
    let mut g: Graph<u8> = Graph::new();
    let a = g.add_node(0);
    let b = g.add_node(0);
    g.add_connection(a, 1, b, 0);
    g.add_connection(a, 0, b, 1);
    g.disconnect(a, 1, b, 0);
    assert_eq!(g.input_sources(b, 2), vec![None, Some((a, 0))]);
}

#[test]
fn remove_node_drops_its_wires() {
    let mut g: Graph<u8> = Graph::new();
    let a = g.add_node(0);
    let b = g.add_node(0);
    let c = g.add_node(0);
    g.add_connection(a, 0, b, 0);
    g.add_connection(b, 0, c, 0);
    g.add_connection(a, 0, c, 1);
    g.remove_node(b);
    assert!(!g.contains_node(b));
    assert_eq!(g.nodes().len(), 2);
    assert_eq!(g.connections().len(), 1);
    assert_eq!(g.input_sources(c, 2), vec![None, Some((a, 0))]);
    // identifiers are never reused
    assert_eq!(g.add_node(0), 4);
}

#[test]
fn remove_connections_to_port_clears_only_that_input() {
    let mut g: Graph<u8> = Graph::new();
    let a = g.add_node(0);
    let b = g.add_node(0);
    g.add_connection(a, 0, b, 0);
    g.add_connection(a, 1, b, 1);
    g.remove_connections_to_port(b, 0);
    assert_eq!(g.input_sources(b, 2), vec![None, Some((a, 1))]);
}

#[test]
fn evaluation_order_puts_dependencies_first() {
    let mut g: Graph<u8> = Graph::new();
    let a = g.add_node(0);
    let b = g.add_node(0);
    let c = g.add_node(0);
    // c feeds b, b feeds a
    g.add_connection(c, 0, b, 0);
    g.add_connection(b, 0, a, 0);
    let (order, cyclic) = g.evaluation_order();
    assert_eq!(order, vec![c, b, a]);
    assert!(cyclic.is_empty());
}

#[test]
fn evaluation_order_breaks_ties_by_identifier() {
    let mut g: Graph<u8> = Graph::new();
    let a = g.add_node(0);
    let b = g.add_node(0);
    let c = g.add_node(0);
    g.add_connection(a, 0, c, 0);
    let (order, cyclic) = g.evaluation_order();
    assert_eq!(order, vec![a, b, c]);
    assert!(cyclic.is_empty());
}

#[test]
fn nodes_on_a_cycle_go_to_the_cyclic_part() {
    let mut g: Graph<u8> = Graph::new();
    let a = g.add_node(0);
    let b = g.add_node(0);
    let c = g.add_node(0);
    let d = g.add_node(0);
    g.add_connection(a, 0, b, 0);
    g.add_connection(b, 0, a, 0);
    g.add_connection(b, 0, d, 0);
    let (order, cyclic) = g.evaluation_order();
    assert_eq!(order.len(), 4);
    assert_eq!(order[0], c);
    assert_eq!(cyclic, vec![a, b, d]);
    assert_eq!(&order[1..], &cyclic[..]);
}

#[test]
fn self_wires_are_not_dependencies() {
    let mut g: Graph<u8> = Graph::new();
    let a = g.add_node(0);
    g.add_connection(a, 0, a, 1);
    let (order, cyclic) = g.evaluation_order();
    assert_eq!(order, vec![a]);
    assert!(cyclic.is_empty());
}

#[test]
fn static_input_value_takes_the_first_matching_wire() {
    let conns = vec![wire(1, 0, 3, 0), wire(2, 5, 3, 1), wire(4, 1, 3, 1)];
    assert_eq!(Graph::<u8>::static_input_value(&conns, 3, 1), Some((2, 5)));
    assert_eq!(Graph::<u8>::static_input_value(&conns, 3, 0), Some((1, 0)));
    assert_eq!(Graph::<u8>::static_input_value(&conns, 3, 2), None);
}

#[test]
fn node_mut_edits_in_place() {
    let mut g: Graph<u32> = Graph::new();
    let a = g.add_node(10);
    if let Some(v) = g.node_mut(a) {
        *v = 11;
    }
    assert_eq!(g.node(a), Some(&11));
    assert!(g.node_mut(42).is_none());
}

#[test]
fn connection_clone_keeps_every_field() {
    let c = Connection { from_node: 1, from_port: 2, to_node: 3, to_port: 4, label: "gain".to_string() };
    let d = c.clone();
    assert_eq!((d.from_node, d.from_port, d.to_node, d.to_port), (1, 2, 3, 4));
    assert_eq!(d.label, "gain");
}
