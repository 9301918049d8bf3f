use network_time_simulator::{Ipv4AddrC, Ipv6AddrC, LinkAddresses, Message, NetworkTopology, Scheduler, TopologyError};

fn node(id: u32, ip: &str) -> String {
    format!(
        "  node [
    id {}
    label \"Node {}\"
    interface [
      id 0
      label \"wlp4s0\"
      ip [
        type \"v4\"
        ip \"{}\"
      ]
    ]
  ]
",
        id, id, ip
    )
}

fn edge(source: u32, target: u32, metric: u32, kind: &str) -> String {
    format!(
        "  edge [
    source {}
    source_if 0
    target {}
    target_if 0
    label \"Link\"
    metric {}
    type \"{}\"
  ]
",
        source, target, metric, kind
    )
}

fn graph(body: &str) -> String {
    format!("graph [\n  label \"test\"\n  id 4\n{}]", body)
}

/// A star centred on node 3 (10.0.0.3): nodes 1 and 2 are linked to it.
fn star() -> NetworkTopology {
    let body = format!(
        "{}{}{}{}{}",
        node(3, "10.0.0.3"),
        node(1, "10.0.0.1"),
        node(2, "10.0.0.2"),
        edge(1, 3, 20, "symmetric"),
        edge(2, 3, 10, "directed")
    );
    NetworkTopology::load(&graph(&body)).expect("the star topology is valid")
}

#[test]
fn delays_of_a_star() {
    let t = star();
    assert_eq!(t.get_delay_v4(1, 0, &Ipv4AddrC::new(10, 0, 0, 3)), Some(20));
    assert_eq!(t.get_delay_v4(3, 0, &Ipv4AddrC::new(10, 0, 0, 1)), Some(20));
    assert_eq!(t.get_delay_v4(2, 0, &Ipv4AddrC::new(10, 0, 0, 3)), Some(10));
    assert_eq!(t.get_delay_v4(3, 0, &Ipv4AddrC::new(10, 0, 0, 2)), None);
    assert_eq!(t.get_delay_v4(1, 0, &Ipv4AddrC::new(10, 0, 0, 2)), None);
    assert_eq!(t.get_delay_v4(1, 1, &Ipv4AddrC::new(10, 0, 0, 3)), None);
    assert_eq!(t.get_delay_v4(1, 0, &Ipv4AddrC::new(10, 0, 0, 9)), None);
    assert_eq!(t.get_delay_v6(1, 0, &Ipv6AddrC::new(0, 0, 0, 0, 0, 0, 0, 1)), None);
}

#[test]
fn symmetric_links_have_the_same_delay_both_ways() {
    let t = star();
    assert_eq!(
        t.get_delay_v4(1, 0, &Ipv4AddrC::new(10, 0, 0, 3)),
        t.get_delay_v4(3, 0, &Ipv4AddrC::new(10, 0, 0, 1))
    );
}

#[test]
fn the_first_matching_link_decides() {
    let body = format!(
        "{}{}{}{}",
        node(1, "10.0.0.1"),
        node(2, "10.0.0.2"),
        edge(1, 2, 7, "directed"),
        edge(1, 2, 9, "symmetric")
    );
    let t = NetworkTopology::load(&graph(&body)).unwrap();
    assert_eq!(t.get_delay_v4(1, 0, &Ipv4AddrC::new(10, 0, 0, 2)), Some(7));
    assert_eq!(t.get_delay_v4(2, 0, &Ipv4AddrC::new(10, 0, 0, 1)), Some(9));
}

#[test]
fn addresses_of_nodes() {
    let t = star();
    assert_eq!(t.ipv4_of_node(2), Some(Ipv4AddrC::new(10, 0, 0, 2)));
    assert_eq!(t.ipv4_of_node(7), None);
    assert!(t.has_no_ipv6());
    assert_eq!(t.nodes().len(), 3);
    assert_eq!(t.edges().len(), 2);
    assert_eq!(t.edges()[0].source, 1);
    assert_eq!(t.edges()[0].target, 3);
}

#[test]
fn ipv6_interfaces() {
    let body = "  node [
    id 1
    interface [
      id 2
      ip [
        type \"v6\"
        ip \"fd00::1\"
      ]
    ]
  ]
  node [
    id 5
    interface [
      id 0
      ip [
        type \"v6\"
        ip \"fd00::5\"
      ]
    ]
  ]
  edge [
    source 5
    source_if 0
    target 1
    target_if 2
    metric 3
    type \"symmetric\"
  ]
";
    let t = NetworkTopology::load(&graph(body)).unwrap();
    assert!(!t.has_no_ipv6());
    assert_eq!(t.get_delay_v6(5, 0, &Ipv6AddrC::new(0xfd00, 0, 0, 0, 0, 0, 0, 1)), Some(3));
    assert_eq!(t.get_delay_v6(1, 2, &Ipv6AddrC::new(0xfd00, 0, 0, 0, 0, 0, 0, 5)), Some(3));
    assert_eq!(t.ipv6_of_node(5), Some(Ipv6AddrC::new(0xfd00, 0, 0, 0, 0, 0, 0, 5)));
    assert_eq!(t.ipv4_of_node(5), None);
}

#[test]
fn empty_topology() {
    let t = NetworkTopology::new().unwrap();
    assert_eq!(t.nodes().len(), 0);
    assert_eq!(t.edges().len(), 0);
    assert_eq!(t.get_delay_v4(1, 0, &Ipv4AddrC::new(127, 0, 0, 1)), None);
}

#[test]
fn errors() {
    assert_eq!(NetworkTopology::load("not a graph").err(), Some(TopologyError::Gml));
    let missing_id = "  node [
    id 1
    interface [
      label \"eth0\"
    ]
  ]
";
    assert_eq!(NetworkTopology::load(&graph(missing_id)).err(), Some(TopologyError::MissingInterfaceId));
    let bad_ip = node(1, "10.0.0.300");
    assert_eq!(NetworkTopology::load(&graph(&bad_ip)).err(), Some(TopologyError::InvalidIpv4));
    let not_object = "  node [
    id 1
    interface 3
  ]
";
    assert_eq!(NetworkTopology::load(&graph(not_object)).err(), Some(TopologyError::InterfaceNotObject));
    let unknown = "  node [
    id 1
    interface [
      id 0
      speed 10
    ]
  ]
";
    assert_eq!(NetworkTopology::load(&graph(unknown)).err(), Some(TopologyError::UnknownInterfaceAttribute));
    // an edge is read only when a delay query reaches it
    let bad_link = format!("{}{}", node(1, "10.0.0.1"), edge(1, 1, 5, "looping"));
    assert!(NetworkTopology::load(&graph(&bad_link)).is_ok());
    let short_ip = "  node [
    id 1
    interface [
      id 0
      ip [
        type \"v4\"
      ]
    ]
  ]
";
    assert_eq!(NetworkTopology::load(&graph(short_ip)).err(), Some(TopologyError::IpFieldMissing));
}

#[test]
fn addresses_of_link_ends() {
    let t = star();
    assert_eq!(
        t.link_addresses(1, 3),
        Some(LinkAddresses {
            ipv4_source: Ipv4AddrC::new(10, 0, 0, 1),
            ipv6_source: Ipv6AddrC::new(0, 0, 0, 0, 0, 0, 0, 0),
            ipv4_target: Ipv4AddrC::new(10, 0, 0, 3),
            ipv6_target: Ipv6AddrC::new(0, 0, 0, 0, 0, 0, 0, 0),
        })
    );
    assert_eq!(t.link_addresses(1, 9), None);
    let body = "  node [
    id 1
    interface [
      id 0
      ip [
        type \"v4\"
        ip \"10.0.0.1\"
      ]
      ip [
        type \"v6\"
        ip \"fd00::1\"
      ]
    ]
  ]
  node [
    id 2
    interface [
      id 0
      ip [
        type \"v4\"
        ip \"10.0.0.2\"
      ]
    ]
  ]
  node [
    id 3
    interface [
      id 0
      ip [
        type \"v4\"
        ip \"10.0.0.3\"
      ]
      ip [
        type \"v6\"
        ip \"fd00::3\"
      ]
    ]
  ]
";
    let t = NetworkTopology::load(&graph(body)).unwrap();
    let a = t.link_addresses(3, 1).unwrap();
    assert_eq!(a.ipv4_source, Ipv4AddrC::new(10, 0, 0, 3));
    assert_eq!(a.ipv6_source, Ipv6AddrC::new(0xfd00, 0, 0, 0, 0, 0, 0, 3));
    assert_eq!(a.ipv4_target, Ipv4AddrC::new(10, 0, 0, 1));
    assert_eq!(a.ipv6_target, Ipv6AddrC::new(0xfd00, 0, 0, 0, 0, 0, 0, 1));
    assert_eq!(t.link_addresses(1, 2), None);
}

/// Node 1 holds 192.168.1.1 and 192.168.1.2 on interface 0 and 10.0.0.1 on
/// interface 1; node 2 holds 172.16.0.2 on interface 0. Interface 0 of node 1
/// is linked to interface 0 of node 2 with delay 20, interface 1 of node 1 to
/// interface 0 of node 2 with delay 10.
const LINKED_GRAPH: &str = "graph [
  directed 0
  node [
    id 1
    label \"Node 1\"
    interface [
      id 0
      ip [
        type \"v4\"
        ip \"192.168.1.1\"
      ]
      ip [
        type \"v4\"
        ip \"192.168.1.2\"
      ]
    ]
    interface [
      id 1
      ip [
        type \"v4\"
        ip \"10.0.0.1\"
      ]
    ]
  ]
  node [
    id 2
    label \"Node 2\"
    interface [
      id 0
      ip [
        type \"v4\"
        ip \"172.16.0.2\"
      ]
    ]
  ]
  edge [
    source 1
    source_if 0
    target 2
    target_if 0
    metric 20
    type \"symmetric\"
  ]
  edge [
    source 1
    source_if 1
    target 2
    target_if 0
    metric 10
    type \"symmetric\"
  ]
]";

#[test]
fn delayed_links() {
    let topo = NetworkTopology::load(LINKED_GRAPH).unwrap();
    // First edge
    assert_eq!(topo.get_delay_v4(2, 0, &Ipv4AddrC::new(192, 168, 1, 2)), Some(20));
    assert_eq!(topo.get_delay_v4(2, 0, &Ipv4AddrC::new(192, 168, 1, 1)), Some(20));
    assert_eq!(topo.get_delay_v4(1, 0, &Ipv4AddrC::new(172, 16, 0, 2)), Some(20));
    // Second edge
    assert_eq!(topo.get_delay_v4(1, 1, &Ipv4AddrC::new(172, 16, 0, 2)), Some(10));
    assert_eq!(topo.get_delay_v4(2, 0, &Ipv4AddrC::new(10, 0, 0, 1)), Some(10));
}

#[test]
fn edges_are_read_when_a_query_reaches_them() {
    let no_metric = "  edge [
    source 1
    source_if 0
    target 2
    target_if 0
    type \"directed\"
  ]
";
    let body = format!(
        "{}{}{}{}{}{}",
        node(1, "10.0.0.1"),
        node(2, "10.0.0.2"),
        node(3, "10.0.0.3"),
        edge(1, 3, 20, "symmetric"),
        no_metric,
        edge(2, 2, 5, "looping")
    );
    let t = NetworkTopology::load(&graph(&body)).unwrap();
    // the first edge answers before the faulty ones are reached
    assert_eq!(t.get_delay_v4(1, 0, &Ipv4AddrC::new(10, 0, 0, 3)), Some(20));
    assert_eq!(t.get_delay_v4(3, 0, &Ipv4AddrC::new(10, 0, 0, 1)), Some(20));
    // no node holds the address: no edge is read
    assert_eq!(t.get_delay_v4(2, 0, &Ipv4AddrC::new(10, 0, 0, 9)), None);
    let sim = Scheduler::new(3);
    let ok = Message::HasToSend4(1, 0, Ipv4AddrC::new(10, 0, 0, 3), 1);
    assert!(sim.can_handle(&ok, 0, &t, 0));
    // the link from 1 to 2 has no metric
    let no_delay = Message::HasToSend4(1, 0, Ipv4AddrC::new(10, 0, 0, 2), 1);
    assert!(!sim.can_handle(&no_delay, 0, &t, 0));
    // from 2 the query reaches the edge of unknown type
    let bad_type = Message::HasToSend4(2, 0, Ipv4AddrC::new(10, 0, 0, 3), 1);
    assert!(!sim.can_handle(&bad_type, 0, &t, 0));
}

#[test]
fn addresses_from_text() {
    assert_eq!(Ipv4AddrC::from_text("192.168.1.2"), Some(Ipv4AddrC::new(192, 168, 1, 2)));
    assert_eq!(Ipv4AddrC::from_text("192.168.1.300"), None);
    assert_eq!(Ipv6AddrC::from_text("fd00::1"), Some(Ipv6AddrC::new(0xfd00, 0, 0, 0, 0, 0, 0, 1)));
    assert_eq!(Ipv6AddrC::from_text("10.0.0.1"), None);
}
