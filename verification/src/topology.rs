//! The network topology of a simulation: which node and interface hold each
//! address, and the links between interfaces with their delays.
//!
//! A topology is read from a GML graph. Each node lists its interfaces; an
//! interface has an `id` and any number of `ip` entries, each a pair (version,
//! address text). Each edge links an interface of its source node to an
//! interface of its target node, in one direction (`directed`) or both
//! (`symmetric`), with a delay (`metric`). The nodes are read when the
//! topology is loaded; an edge is read only when a delay query reaches it.

use vstd::prelude::*;

use crate::addr::{ipv4_text, ipv6_text, parse_ipv4, parse_ipv6, Ipv4AddrC, Ipv6AddrC};
use crate::addrmap::AddressMap;
use crate::gml::{gml_graph, gml_document, gml_object_from_str, graph_from_gml, GmlEdge, GmlGraph, GmlNode, GmlValue};

verus! {

/// Why a topology could not be read.
#[derive(Debug, PartialEq, Eq, Clone, Copy)]
pub enum TopologyError {
    /// The text is not a GML document that describes a graph.
    Gml,
    /// An `interface` attribute of a node is not an object.
    InterfaceNotObject,
    /// An interface holds an attribute other than an integer `id`, an object
    /// `ip` or a `label`.
    UnknownInterfaceAttribute,
    /// An `ip` entry has fewer than two values.
    IpFieldMissing,
    /// The address of an `ip` entry is not a string.
    IpNotString,
    /// The address of a `v4` entry is not an IPv4 address.
    InvalidIpv4,
    /// The address of another entry is not an IPv6 address.
    InvalidIpv6,
    /// An interface has no id (or the id -1).
    MissingInterfaceId,
    /// A delay query reached an edge that lacks an integer `source_if` or
    /// `target_if`, or a `type` that is `symmetric` or `directed`, or it
    /// stopped at a link without an integer `metric`.
    InvalidLink,
}

/// A link between an interface of one node and an interface of another.
#[derive(Debug, PartialEq, Eq, Clone, Copy)]
pub struct Link {
    pub source: i64,
    pub target: i64,
    pub source_if: i64,
    pub target_if: i64,
    /// Whether the link works in both directions (`symmetric`) or from the
    /// source to the target only (`directed`).
    pub symmetric: bool,
    /// The delay of the link, where the edge gives it as an integer.
    pub metric: Option<i64>,
}

/// The addresses given to the two ends of a link: an address of the source
/// node and one of the target node, for each version.
#[derive(Debug, PartialEq, Eq, Clone, Copy)]
pub struct LinkAddresses {
    pub ipv4_source: Ipv4AddrC,
    pub ipv6_source: Ipv6AddrC,
    pub ipv4_target: Ipv4AddrC,
    pub ipv6_target: Ipv6AddrC,
}

/// The network topology read from a graph.
#[derive(Debug)]
pub struct NetworkTopology {
    grf: GmlGraph,
    links: Vec<Option<Link>>,
    ip4_node: AddressMap<Ipv4AddrC>,
    ip6_node: AddressMap<Ipv6AddrC>,
}

/// Whether an attribute list holds an attribute named `name`.
pub open spec fn has_attr(attrs: Seq<(String, GmlValue)>, name: Seq<char>) -> bool {
    exists|i: int| 0 <= i < attrs.len() && attrs[i].0@ == name
}

/// The position of the first attribute named `name`.
pub open spec fn attr_pos(attrs: Seq<(String, GmlValue)>, name: Seq<char>) -> int {
    choose|i: int|
        0 <= i < attrs.len() && attrs[i].0@ == name && forall|j: int|
            0 <= j < i ==> attrs[j].0@ != name
}

/// The value of the first attribute named `name`, if there is one.
pub open spec fn attr(attrs: Seq<(String, GmlValue)>, name: Seq<char>) -> Option<GmlValue> {
    if has_attr(attrs, name) {
        Some(attrs[attr_pos(attrs, name)].1)
    } else {
        None
    }
}

/// The link that an edge describes: where it has an integer `source_if`
/// and `target_if` and a `type` that is `symmetric` or `directed`; its
/// metric where it has an integer `metric`.
#[verifier::opaque]
pub open spec fn link_of(e: GmlEdge) -> Option<Link> {
    let a = e.attrs@;
    let metric = match attr(a, "metric"@) {
        Some(GmlValue::Int(m)) => Some(m),
        _ => None,
    };
    match (attr(a, "source_if"@), attr(a, "target_if"@), attr(a, "type"@)) {
        (Some(GmlValue::Int(si)), Some(GmlValue::Int(ti)), Some(GmlValue::Str(t))) => if t@
            == "symmetric"@ {
            Some(
                Link {
                    source: e.source,
                    target: e.target,
                    source_if: si,
                    target_if: ti,
                    symmetric: true,
                    metric,
                },
            )
        } else if t@ == "directed"@ {
            Some(
                Link {
                    source: e.source,
                    target: e.target,
                    source_if: si,
                    target_if: ti,
                    symmetric: false,
                    metric,
                },
            )
        } else {
            None
        },
        _ => None,
    }
}

/// The links of some edges, one per edge (none for an edge that describes
/// no link).
pub open spec fn links_of(edges: Seq<GmlEdge>) -> Seq<Option<Link>> {
    edges.map_values(|e: GmlEdge| link_of(e))
}

/// Whether `l` carries packets from interface `id_if_src` of node `id_src`
/// to interface `id_if_dst` of node `id_dst`.
pub open spec fn link_matches(l: Link, id_src: u8, id_if_src: u8, id_dst: u8, id_if_dst: u8) -> bool {
    let forward = l.source == id_src && l.target == id_dst && l.source_if == id_if_src
        && l.target_if == id_if_dst;
    let backward = l.source == id_dst && l.target == id_src && l.source_if == id_if_dst
        && l.target_if == id_if_src;
    if l.symmetric {
        forward || backward
    } else {
        forward
    }
}

/// The delay from `(id_src, id_if_src)` to `peer` along the links from
/// position `i` on: the metric of the first of them that links the two.
pub open spec fn delay_from(links: Seq<Option<Link>>, peer: (u8, u8), id_src: u8, id_if_src: u8, i: nat) -> Option<u64>
    decreases links.len() - i,
{
    if i >= links.len() {
        None
    } else {
        match links[i as int] {
            Some(l) => if link_matches(l, id_src, id_if_src, peer.0, peer.1) {
                match l.metric {
                    Some(m) => Some(m as u64),
                    None => None,
                }
            } else {
                delay_from(links, peer, id_src, id_if_src, i + 1)
            },
            None => None,
        }
    }
}

/// Whether looking for the delay from `(id_src, id_if_src)` to `peer` along
/// the links from position `i` on meets no fault: every edge it reaches
/// describes a link, and the first link between the two has a metric.
pub open spec fn delay_ok_from(links: Seq<Option<Link>>, peer: (u8, u8), id_src: u8, id_if_src: u8, i: nat) -> bool
    decreases links.len() - i,
{
    if i >= links.len() {
        true
    } else {
        match links[i as int] {
            Some(l) => if link_matches(l, id_src, id_if_src, peer.0, peer.1) {
                l.metric is Some
            } else {
                delay_ok_from(links, peer, id_src, id_if_src, i + 1)
            },
            None => false,
        }
    }
}

/// The delay from `(id_src, id_if_src)` to `peer`: the metric of the first
/// link between them, if there is one.
pub open spec fn link_delay(links: Seq<Option<Link>>, peer: (u8, u8), id_src: u8, id_if_src: u8) -> Option<u64> {
    delay_from(links, peer, id_src, id_if_src, 0)
}

/// Whether looking for the delay from `(id_src, id_if_src)` to `peer` meets
/// no fault.
pub open spec fn link_delay_ok(links: Seq<Option<Link>>, peer: (u8, u8), id_src: u8, id_if_src: u8) -> bool {
    delay_ok_from(links, peer, id_src, id_if_src, 0)
}

/// Whether `s` and `lit` are the same text.
fn str_is(s: &String, lit: &str) -> (r: bool)
    ensures
        r == (s@ == lit@),
{
    let t = lit.to_owned();
    *s == t
}

/// The value of the first attribute named `name`.
fn find_attr<'a>(attrs: &'a Vec<(String, GmlValue)>, name: &str) -> (r: Option<&'a GmlValue>)
    ensures
        match r {
            Some(v) => attr(attrs@, name@) == Some(*v),
            None => attr(attrs@, name@) is None,
        },
{
    let mut i: usize = 0;
    while i < attrs.len()
        invariant
            0 <= i <= attrs@.len(),
            forall|j: int| 0 <= j < i ==> attrs@[j].0@ != name@,
        decreases attrs@.len() - i,
    {
        if str_is(&attrs[i].0, name) {
            assert(attr_pos(attrs@, name@) == i);
            return Some(&attrs[i].1);
        }
        i = i + 1;
    }
    None
}

/// Reads the link that an edge describes.
fn read_link(e: &GmlEdge) -> (r: Option<Link>)
    ensures
        r == link_of(*e),
{
    reveal(link_of);
    let si = find_attr(&e.attrs, "source_if");
    let ti = find_attr(&e.attrs, "target_if");
    let ty = find_attr(&e.attrs, "type");
    let metric = match find_attr(&e.attrs, "metric") {
        Some(GmlValue::Int(m)) => Some(*m),
        _ => None,
    };
    match (si, ti, ty) {
        (Some(GmlValue::Int(si)), Some(GmlValue::Int(ti)), Some(GmlValue::Str(t))) => {
            let symmetric = if str_is(t, "symmetric") {
                true
            } else if str_is(t, "directed") {
                false
            } else {
                return None;
            };
            Some(
                Link {
                    source: e.source,
                    target: e.target,
                    source_if: *si,
                    target_if: *ti,
                    symmetric,
                    metric,
                },
            )
        },
        _ => None,
    }
}

/// What has been read of an interface: its id (-1 while none was read),
/// its IPv4 addresses and its IPv6 addresses.
pub type InterfaceScan = (i64, Seq<Ipv4AddrC>, Seq<Ipv6AddrC>);

/// The IPv4 and IPv6 address maps built so far.
pub type AddressMaps = (Map<Ipv4AddrC, (u8, u8)>, Map<Ipv6AddrC, (u8, u8)>);

/// Whether `v` is the string `lit`.
pub open spec fn is_str(v: GmlValue, lit: Seq<char>) -> bool {
    match v {
        GmlValue::Str(s) => s@ == lit,
        _ => false,
    }
}

/// Reading one attribute of an interface.
pub open spec fn interface_step(acc: InterfaceScan, name: Seq<char>, v: GmlValue) -> Result<InterfaceScan, TopologyError> {
    if name == "id"@ {
        match v {
            GmlValue::Int(i) => Ok((i, acc.1, acc.2)),
            _ => Err(TopologyError::UnknownInterfaceAttribute),
        }
    } else if name == "ip"@ {
        match v {
            GmlValue::Obj(ip) => {
                let p = ip@;
                if p.len() < 2 {
                    Err(TopologyError::IpFieldMissing)
                } else {
                    match p[1].1 {
                        GmlValue::Str(text) => if is_str(p[0].1, "v4"@) {
                            match ipv4_text(text@) {
                                Some(a) => Ok((acc.0, acc.1.push(a), acc.2)),
                                None => Err(TopologyError::InvalidIpv4),
                            }
                        } else {
                            match ipv6_text(text@) {
                                Some(a) => Ok((acc.0, acc.1, acc.2.push(a))),
                                None => Err(TopologyError::InvalidIpv6),
                            }
                        },
                        _ => Err(TopologyError::IpNotString),
                    }
                }
            },
            _ => Err(TopologyError::UnknownInterfaceAttribute),
        }
    } else if name == "label"@ {
        Ok(acc)
    } else {
        Err(TopologyError::UnknownInterfaceAttribute)
    }
}

/// Reading the first `n` attributes of an interface, in order.
pub open spec fn interface_scan(pairs: Seq<(String, GmlValue)>, n: nat) -> Result<InterfaceScan, TopologyError>
    decreases n,
{
    if n == 0 {
        Ok((-1i64, Seq::empty(), Seq::empty()))
    } else {
        match interface_scan(pairs, (n - 1) as nat) {
            Ok(acc) => interface_step(acc, pairs[n - 1].0@, pairs[n - 1].1),
            Err(e) => Err(e),
        }
    }
}

/// `m` with each address of `ips` mapped to `val`, in order.
pub open spec fn insert_all<K>(m: Map<K, (u8, u8)>, ips: Seq<K>, val: (u8, u8)) -> Map<K, (u8, u8)>
    decreases ips.len(),
{
    if ips.len() == 0 {
        m
    } else {
        insert_all(m, ips.drop_last(), val).insert(ips.last(), val)
    }
}

/// Reading one attribute of node `node_id`: an interface maps its addresses
/// to (node id, interface id).
pub open spec fn node_attr_step(maps: AddressMaps, node_id: i64, name: Seq<char>, v: GmlValue) -> Result<AddressMaps, TopologyError> {
    if name == "interface"@ {
        match v {
            GmlValue::Obj(iface) => match interface_scan(iface@, iface@.len()) {
                Ok(acc) => if acc.0 == -1 {
                    Err(TopologyError::MissingInterfaceId)
                } else {
                    let val = (node_id as u8, acc.0 as u8);
                    Ok((insert_all(maps.0, acc.1, val), insert_all(maps.1, acc.2, val)))
                },
                Err(e) => Err(e),
            },
            _ => Err(TopologyError::InterfaceNotObject),
        }
    } else {
        Ok(maps)
    }
}

/// Reading the first `n` attributes of node `node_id`, in order.
pub open spec fn node_scan(maps: AddressMaps, node_id: i64, attrs: Seq<(String, GmlValue)>, n: nat) -> Result<AddressMaps, TopologyError>
    decreases n,
{
    if n == 0 {
        Ok(maps)
    } else {
        match node_scan(maps, node_id, attrs, (n - 1) as nat) {
            Ok(m) => node_attr_step(m, node_id, attrs[n - 1].0@, attrs[n - 1].1),
            Err(e) => Err(e),
        }
    }
}

/// Reading the first `n` nodes, in order.
pub open spec fn nodes_scan(nodes: Seq<GmlNode>, n: nat) -> Result<AddressMaps, TopologyError>
    decreases n,
{
    if n == 0 {
        Ok((Map::empty(), Map::empty()))
    } else {
        match nodes_scan(nodes, (n - 1) as nat) {
            Ok(m) => node_scan(m, nodes[n - 1].id, nodes[n - 1].attrs@, nodes[n - 1].attrs@.len()),
            Err(e) => Err(e),
        }
    }
}

/// The links and address maps that a graph describes: the nodes are read,
/// and the first fault met is the error; each edge gives its link, if any.
pub open spec fn topology_of(g: GmlGraph) -> Result<(Seq<Option<Link>>, Map<Ipv4AddrC, (u8, u8)>, Map<Ipv6AddrC, (u8, u8)>), TopologyError> {
    match nodes_scan(g.nodes@, g.nodes@.len()) {
        Ok(m) => Ok((links_of(g.edges@), m.0, m.1)),
        Err(e) => Err(e),
    }
}

/// Once reading an interface fails, it fails with the same error.
proof fn lemma_interface_scan_err(pairs: Seq<(String, GmlValue)>, k: nat, n: nat)
    requires
        k <= n,
        interface_scan(pairs, k) is Err,
    ensures
        interface_scan(pairs, n) == interface_scan(pairs, k),
    decreases n - k,
{
    if k < n {
        lemma_interface_scan_err(pairs, k, (n - 1) as nat);
    }
}

/// Once reading a node fails, it fails with the same error.
proof fn lemma_node_scan_err(maps: AddressMaps, node_id: i64, attrs: Seq<(String, GmlValue)>, k: nat, n: nat)
    requires
        k <= n,
        node_scan(maps, node_id, attrs, k) is Err,
    ensures
        node_scan(maps, node_id, attrs, n) == node_scan(maps, node_id, attrs, k),
    decreases n - k,
{
    if k < n {
        lemma_node_scan_err(maps, node_id, attrs, k, (n - 1) as nat);
    }
}

/// Once reading the nodes fails, it fails with the same error.
proof fn lemma_nodes_scan_err(nodes: Seq<GmlNode>, k: nat, n: nat)
    requires
        k <= n,
        nodes_scan(nodes, k) is Err,
    ensures
        nodes_scan(nodes, n) == nodes_scan(nodes, k),
    decreases n - k,
{
    if k < n {
        lemma_nodes_scan_err(nodes, k, (n - 1) as nat);
    }
}

/// Reads the id and addresses of an interface.
fn read_interface(pairs: &Vec<(String, GmlValue)>) -> (r: Result<(i64, Vec<Ipv4AddrC>, Vec<Ipv6AddrC>), TopologyError>)
    ensures
        match r {
            Ok((id, v4, v6)) => interface_scan(pairs@, pairs@.len()) == Ok::<InterfaceScan, TopologyError>((id, v4@, v6@)),
            Err(e) => interface_scan(pairs@, pairs@.len()) == Err::<InterfaceScan, TopologyError>(e),
        },
{
    let mut id: i64 = -1;
    let mut v4: Vec<Ipv4AddrC> = Vec::new();
    let mut v6: Vec<Ipv6AddrC> = Vec::new();
    let mut i: usize = 0;
    while i < pairs.len()
        invariant
            0 <= i <= pairs@.len(),
            interface_scan(pairs@, i as nat) == Ok::<InterfaceScan, TopologyError>((id, v4@, v6@)),
        decreases pairs@.len() - i,
    {
        let ghost before = (id, v4@, v6@);
        let name = &pairs[i].0;
        let value = &pairs[i].1;
        let step: Result<(), TopologyError> = if str_is(name, "id") {
            match value {
                GmlValue::Int(v) => {
                    id = *v;
                    Ok(())
                },
                _ => Err(TopologyError::UnknownInterfaceAttribute),
            }
        } else if str_is(name, "ip") {
            match value {
                GmlValue::Obj(ip) => {
                    if ip.len() < 2 {
                        Err(TopologyError::IpFieldMissing)
                    } else {
                        let is_v4 = match &ip[0].1 {
                            GmlValue::Str(t) => str_is(t, "v4"),
                            _ => false,
                        };
                        match &ip[1].1 {
                            GmlValue::Str(text) => {
                                if is_v4 {
                                    match parse_ipv4(text.as_str()) {
                                        Some(a) => {
                                            v4.push(a);
                                            Ok(())
                                        },
                                        None => Err(TopologyError::InvalidIpv4),
                                    }
                                } else {
                                    match parse_ipv6(text.as_str()) {
                                        Some(a) => {
                                            v6.push(a);
                                            Ok(())
                                        },
                                        None => Err(TopologyError::InvalidIpv6),
                                    }
                                }
                            },
                            _ => Err(TopologyError::IpNotString),
                        }
                    }
                },
                _ => Err(TopologyError::UnknownInterfaceAttribute),
            }
        } else if str_is(name, "label") {
            Ok(())
        } else {
            Err(TopologyError::UnknownInterfaceAttribute)
        };
        match step {
            Ok(()) => {
                assert(interface_scan(pairs@, (i + 1) as nat) == Ok::<InterfaceScan, TopologyError>((id, v4@, v6@)));
            },
            Err(e) => {
                assert(interface_scan(pairs@, (i + 1) as nat) == Err::<InterfaceScan, TopologyError>(e));
                proof {
                    lemma_interface_scan_err(pairs@, (i + 1) as nat, pairs@.len());
                }
                return Err(e);
            },
        }
        i = i + 1;
    }
    Ok((id, v4, v6))
}

/// Maps each address of `ips` to `val`, in order.
fn insert_all4(m: &mut AddressMap<Ipv4AddrC>, ips: &Vec<Ipv4AddrC>, val: (u8, u8))
    requires
        old(m).wf(),
    ensures
        final(m).wf(),
        final(m)@ == insert_all(old(m)@, ips@, val),
{
    let mut k: usize = 0;
    while k < ips.len()
        invariant
            0 <= k <= ips@.len(),
            m.wf(),
            m@ == insert_all(old(m)@, ips@.subrange(0, k as int), val),
        decreases ips@.len() - k,
    {
        m.insert(ips[k], val);
        k = k + 1;
        assert(ips@.subrange(0, k as int).drop_last() =~= ips@.subrange(0, k - 1));
    }
    assert(ips@.subrange(0, ips@.len() as int) =~= ips@);
}

/// Maps each address of `ips` to `val`, in order.
fn insert_all6(m: &mut AddressMap<Ipv6AddrC>, ips: &Vec<Ipv6AddrC>, val: (u8, u8))
    requires
        old(m).wf(),
    ensures
        final(m).wf(),
        final(m)@ == insert_all(old(m)@, ips@, val),
{
    let mut k: usize = 0;
    while k < ips.len()
        invariant
            0 <= k <= ips@.len(),
            m.wf(),
            m@ == insert_all(old(m)@, ips@.subrange(0, k as int), val),
        decreases ips@.len() - k,
    {
        m.insert(ips[k], val);
        k = k + 1;
        assert(ips@.subrange(0, k as int).drop_last() =~= ips@.subrange(0, k - 1));
    }
    assert(ips@.subrange(0, ips@.len() as int) =~= ips@);
}

/// Reads the addresses of the interfaces of one node into the maps.
fn read_node(node: &GmlNode, ip4: &mut AddressMap<Ipv4AddrC>, ip6: &mut AddressMap<Ipv6AddrC>) -> (r: Result<(), TopologyError>)
    requires
        old(ip4).wf(),
        old(ip6).wf(),
    ensures
        final(ip4).wf(),
        final(ip6).wf(),
        match r {
            Ok(()) => node_scan((old(ip4)@, old(ip6)@), node.id, node.attrs@, node.attrs@.len())
                == Ok::<AddressMaps, TopologyError>((final(ip4)@, final(ip6)@)),
            Err(e) => node_scan((old(ip4)@, old(ip6)@), node.id, node.attrs@, node.attrs@.len())
                == Err::<AddressMaps, TopologyError>(e),
        },
{
    let ghost start: AddressMaps = (ip4@, ip6@);
    let mut i: usize = 0;
    while i < node.attrs.len()
        invariant
            0 <= i <= node.attrs@.len(),
            ip4.wf(),
            ip6.wf(),
            start == (old(ip4)@, old(ip6)@),
            node_scan(start, node.id, node.attrs@, i as nat) == Ok::<AddressMaps, TopologyError>((ip4@, ip6@)),
        decreases node.attrs@.len() - i,
    {
        if str_is(&node.attrs[i].0, "interface") {
            match &node.attrs[i].1 {
                GmlValue::Obj(iface) => {
                    match read_interface(iface) {
                        Ok((id, v4, v6)) => {
                            if id == -1 {
                                assert(node_scan(start, node.id, node.attrs@, (i + 1) as nat)
                                    == Err::<AddressMaps, TopologyError>(TopologyError::MissingInterfaceId));
                                proof {
                                    lemma_node_scan_err(start, node.id, node.attrs@, (i + 1) as nat, node.attrs@.len());
                                }
                                return Err(TopologyError::MissingInterfaceId);
                            }
                            let val = (node.id as u8, id as u8);
                            insert_all4(ip4, &v4, val);
                            insert_all6(ip6, &v6, val);
                        },
                        Err(e) => {
                            assert(node_scan(start, node.id, node.attrs@, (i + 1) as nat)
                                == Err::<AddressMaps, TopologyError>(e));
                            proof {
                                lemma_node_scan_err(start, node.id, node.attrs@, (i + 1) as nat, node.attrs@.len());
                            }
                            return Err(e);
                        },
                    }
                },
                _ => {
                    assert(node_scan(start, node.id, node.attrs@, (i + 1) as nat)
                        == Err::<AddressMaps, TopologyError>(TopologyError::InterfaceNotObject));
                    proof {
                        lemma_node_scan_err(start, node.id, node.attrs@, (i + 1) as nat, node.attrs@.len());
                    }
                    return Err(TopologyError::InterfaceNotObject);
                },
            }
        }
        assert(node_scan(start, node.id, node.attrs@, (i + 1) as nat) == Ok::<AddressMaps, TopologyError>((ip4@, ip6@)));
        i = i + 1;
    }
    Ok(())
}

/// Reads the address maps that the interfaces of the nodes describe.
fn read_nodes(nodes: &Vec<GmlNode>) -> (r: Result<(AddressMap<Ipv4AddrC>, AddressMap<Ipv6AddrC>), TopologyError>)
    ensures
        match r {
            Ok((m4, m6)) => m4.wf() && m6.wf() && nodes_scan(nodes@, nodes@.len())
                == Ok::<AddressMaps, TopologyError>((m4@, m6@)),
            Err(e) => nodes_scan(nodes@, nodes@.len()) == Err::<AddressMaps, TopologyError>(e),
        },
{
    let mut ip4_node: AddressMap<Ipv4AddrC> = AddressMap::new();
    let mut ip6_node: AddressMap<Ipv6AddrC> = AddressMap::new();
    let mut i: usize = 0;
    while i < nodes.len()
        invariant
            0 <= i <= nodes@.len(),
            ip4_node.wf(),
            ip6_node.wf(),
            nodes_scan(nodes@, i as nat) == Ok::<AddressMaps, TopologyError>((ip4_node@, ip6_node@)),
        decreases nodes@.len() - i,
    {
        match read_node(&nodes[i], &mut ip4_node, &mut ip6_node) {
            Ok(()) => {},
            Err(e) => {
                proof {
                    lemma_nodes_scan_err(nodes@, (i + 1) as nat, nodes@.len());
                }
                return Err(e);
            },
        }
        i = i + 1;
    }
    Ok((ip4_node, ip6_node))
}

/// Reads the links that the edges describe, one per edge.
fn read_links(edges: &Vec<GmlEdge>) -> (r: Vec<Option<Link>>)
    ensures
        r@ == links_of(edges@),
{
    let mut links: Vec<Option<Link>> = Vec::new();
    let mut j: usize = 0;
    while j < edges.len()
        invariant
            0 <= j <= edges@.len(),
            links@ == links_of(edges@.subrange(0, j as int)),
        decreases edges@.len() - j,
    {
        links.push(read_link(&edges[j]));
        j = j + 1;
        assert(links@ =~= links_of(edges@.subrange(0, j as int)));
    }
    assert(edges@.subrange(0, edges@.len() as int) =~= edges@);
    links
}

impl NetworkTopology {
    /// Whether `l` carries packets from interface `id_if_src` of node `id_src`
    /// to interface `id_if_dst` of node `id_dst`: in the link's direction, or,
    /// for a symmetric link, in either direction.
    pub fn match_peers(l: &Link, id_src: u8, id_if_src: u8, id_dst: u8, id_if_dst: u8) -> (r: bool)
        ensures
            r == link_matches(*l, id_src, id_if_src, id_dst, id_if_dst),
    {
        let forward = l.source == id_src as i64 && l.target == id_dst as i64 && l.source_if
            == id_if_src as i64 && l.target_if == id_if_dst as i64;
        if l.symmetric {
            forward || (l.source == id_dst as i64 && l.target == id_src as i64 && l.source_if
                == id_if_dst as i64 && l.target_if == id_if_src as i64)
        } else {
            forward
        }
    }

    /// The links of the topology, one per edge of the graph, in order (none
    /// for an edge that describes no link).
    pub closed spec fn links(&self) -> Seq<Option<Link>> {
        self.links@
    }

    /// The node and interface that hold each IPv4 address.
    pub closed spec fn ipv4_nodes(&self) -> Map<Ipv4AddrC, (u8, u8)> {
        self.ip4_node@
    }

    /// The node and interface that hold each IPv6 address.
    pub closed spec fn ipv6_nodes(&self) -> Map<Ipv6AddrC, (u8, u8)> {
        self.ip6_node@
    }

    /// The graph the topology was read from.
    pub closed spec fn graph(&self) -> GmlGraph {
        self.grf
    }

    /// The delay of a packet sent from interface `id_if_src` of node `id_src`
    /// to the IPv4 address `addr_dst`.
    pub open spec fn delay_v4(&self, id_src: u8, id_if_src: u8, addr_dst: Ipv4AddrC) -> Option<u64> {
        if self.ipv4_nodes().contains_key(addr_dst) {
            link_delay(self.links(), self.ipv4_nodes()[addr_dst], id_src, id_if_src)
        } else {
            None
        }
    }

    /// Whether looking for the delay to the IPv4 address `addr_dst` meets no
    /// fault (see `link_delay_ok`).
    pub open spec fn delay_v4_ok(&self, id_src: u8, id_if_src: u8, addr_dst: Ipv4AddrC) -> bool {
        self.ipv4_nodes().contains_key(addr_dst) ==> link_delay_ok(
            self.links(),
            self.ipv4_nodes()[addr_dst],
            id_src,
            id_if_src,
        )
    }

    /// The delay of a packet sent from interface `id_if_src` of node `id_src`
    /// to the IPv6 address `addr_dst`.
    pub open spec fn delay_v6(&self, id_src: u8, id_if_src: u8, addr_dst: Ipv6AddrC) -> Option<u64> {
        if self.ipv6_nodes().contains_key(addr_dst) {
            link_delay(self.links(), self.ipv6_nodes()[addr_dst], id_src, id_if_src)
        } else {
            None
        }
    }

    /// Whether looking for the delay to the IPv6 address `addr_dst` meets no
    /// fault (see `link_delay_ok`).
    pub open spec fn delay_v6_ok(&self, id_src: u8, id_if_src: u8, addr_dst: Ipv6AddrC) -> bool {
        self.ipv6_nodes().contains_key(addr_dst) ==> link_delay_ok(
            self.links(),
            self.ipv6_nodes()[addr_dst],
            id_src,
            id_if_src,
        )
    }

    /// The address maps are well formed.
    pub closed spec fn wf(&self) -> bool {
        self.ip4_node.wf() && self.ip6_node.wf()
    }

    /// The delay from `(id_src, id_if_src)` to `peer`: the metric of the first
    /// link between them; an error where an edge reached describes no link or
    /// the link found has no metric.
    fn find_delay(&self, peer: (u8, u8), id_src: u8, id_if_src: u8) -> (r: Result<Option<u64>, TopologyError>)
        ensures
            match r {
                Ok(d) => link_delay_ok(self.links(), peer, id_src, id_if_src) && d == link_delay(
                    self.links(),
                    peer,
                    id_src,
                    id_if_src,
                ),
                Err(e) => !link_delay_ok(self.links(), peer, id_src, id_if_src) && e
                    == TopologyError::InvalidLink,
            },
    {
        let mut i: usize = 0;
        while i < self.links.len()
            invariant
                0 <= i <= self.links@.len(),
                link_delay(self.links@, peer, id_src, id_if_src) == delay_from(
                    self.links@,
                    peer,
                    id_src,
                    id_if_src,
                    i as nat,
                ),
                link_delay_ok(self.links@, peer, id_src, id_if_src) == delay_ok_from(
                    self.links@,
                    peer,
                    id_src,
                    id_if_src,
                    i as nat,
                ),
            decreases self.links@.len() - i,
        {
            match &self.links[i] {
                Some(l) => {
                    if Self::match_peers(l, id_src, id_if_src, peer.0, peer.1) {
                        return match l.metric {
                            Some(m) => Ok(Some(m as u64)),
                            None => Err(TopologyError::InvalidLink),
                        };
                    }
                },
                None => {
                    return Err(TopologyError::InvalidLink);
                },
            }
            i = i + 1;
        }
        Ok(None)
    }

    /// The delay to the IPv4 address `addr_dst`, or the fault met looking for it.
    pub(crate) fn checked_delay_v4(&self, id_src: u8, id_if_src: u8, addr_dst: &Ipv4AddrC) -> (r: Result<Option<u64>, TopologyError>)
        requires
            self.wf(),
        ensures
            match r {
                Ok(d) => self.delay_v4_ok(id_src, id_if_src, *addr_dst) && d == self.delay_v4(id_src, id_if_src, *addr_dst),
                Err(_) => !self.delay_v4_ok(id_src, id_if_src, *addr_dst),
            },
    {
        match self.ip4_node.get(addr_dst) {
            Some(peer) => self.find_delay(peer, id_src, id_if_src),
            None => Ok(None),
        }
    }

    /// The delay to the IPv6 address `addr_dst`, or the fault met looking for it.
    pub(crate) fn checked_delay_v6(&self, id_src: u8, id_if_src: u8, addr_dst: &Ipv6AddrC) -> (r: Result<Option<u64>, TopologyError>)
        requires
            self.wf(),
        ensures
            match r {
                Ok(d) => self.delay_v6_ok(id_src, id_if_src, *addr_dst) && d == self.delay_v6(id_src, id_if_src, *addr_dst),
                Err(_) => !self.delay_v6_ok(id_src, id_if_src, *addr_dst),
            },
    {
        match self.ip6_node.get(addr_dst) {
            Some(peer) => self.find_delay(peer, id_src, id_if_src),
            None => Ok(None),
        }
    }

    /// The delay of a packet sent from interface `id_if_src` of node `id_src`
    /// to the IPv4 address `addr_dst`: none where no node holds the address or
    /// no link leads to the interface that holds it. The edges are read in
    /// order up to the first link that leads there; each must describe a
    /// link, and that link must have a metric.
    pub fn get_delay_v4(&self, id_src: u8, id_if_src: u8, addr_dst: &Ipv4AddrC) -> (r: Option<u64>)
        requires
            self.wf(),
            self.delay_v4_ok(id_src, id_if_src, *addr_dst),
        ensures
            r == self.delay_v4(id_src, id_if_src, *addr_dst),
    {
        match self.checked_delay_v4(id_src, id_if_src, addr_dst) {
            Ok(d) => d,
            Err(_) => None,
        }
    }

    /// The delay of a packet sent from interface `id_if_src` of node `id_src`
    /// to the IPv6 address `addr_dst`: none where no node holds the address or
    /// no link leads to the interface that holds it. The edges are read in
    /// order up to the first link that leads there; each must describe a
    /// link, and that link must have a metric.
    pub fn get_delay_v6(&self, id_src: u8, id_if_src: u8, addr_dst: &Ipv6AddrC) -> (r: Option<u64>)
        requires
            self.wf(),
            self.delay_v6_ok(id_src, id_if_src, *addr_dst),
        ensures
            r == self.delay_v6(id_src, id_if_src, *addr_dst),
    {
        match self.checked_delay_v6(id_src, id_if_src, addr_dst) {
            Ok(d) => d,
            Err(_) => None,
        }
    }

    /// Builds the topology that a graph describes: the address maps from the
    /// interfaces of its nodes, the links from its edges.
    pub fn from_graph(grf: GmlGraph) -> (r: Result<Self, TopologyError>)
        ensures
            match r {
                Ok(t) => t.wf() && t.graph() == grf && topology_of(grf) == Ok::<
                    (Seq<Option<Link>>, Map<Ipv4AddrC, (u8, u8)>, Map<Ipv6AddrC, (u8, u8)>),
                    TopologyError,
                >((t.links(), t.ipv4_nodes(), t.ipv6_nodes())),
                Err(e) => topology_of(grf) == Err::<
                    (Seq<Option<Link>>, Map<Ipv4AddrC, (u8, u8)>, Map<Ipv6AddrC, (u8, u8)>),
                    TopologyError,
                >(e),
            },
    {
        let (ip4_node, ip6_node) = match read_nodes(&grf.nodes) {
            Ok(maps) => maps,
            Err(e) => return Err(e),
        };
        let links = read_links(&grf.edges);
        Ok(NetworkTopology { grf, links, ip4_node, ip6_node })
    }

    /// Reads the topology that a GML text describes.
    pub fn load(graph: &str) -> (r: Result<Self, TopologyError>)
        ensures
            match gml_document(graph@) {
                None => r == Err::<Self, TopologyError>(TopologyError::Gml),
                Some(doc) => match gml_graph(doc) {
                    None => r == Err::<Self, TopologyError>(TopologyError::Gml),
                    Some(g) => match topology_of(g) {
                        Ok(t3) => r matches Ok(t) && t.wf() && t.graph() == g && (
                        t.links(),
                        t.ipv4_nodes(),
                        t.ipv6_nodes(),
                        ) == t3,
                        Err(e) => r == Err::<Self, TopologyError>(e),
                    },
                },
            },
    {
        let doc = match gml_object_from_str(graph) {
            Ok(doc) => doc,
            Err(_) => return Err(TopologyError::Gml),
        };
        let grf = match graph_from_gml(doc) {
            Ok(g) => g,
            Err(_) => return Err(TopologyError::Gml),
        };
        Self::from_graph(grf)
    }

    /// The topology of the minimal graph `graph [ id 4 ]`: no node, no link.
    pub fn new() -> (r: Result<Self, TopologyError>)
        ensures
            match gml_document("\ngraph [            \n   id 4           \n]"@) {
                None => r == Err::<Self, TopologyError>(TopologyError::Gml),
                Some(doc) => match gml_graph(doc) {
                    None => r == Err::<Self, TopologyError>(TopologyError::Gml),
                    Some(g) => match topology_of(g) {
                        Ok(t3) => r matches Ok(t) && t.wf() && t.graph() == g && (
                        t.links(),
                        t.ipv4_nodes(),
                        t.ipv6_nodes(),
                        ) == t3,
                        Err(e) => r == Err::<Self, TopologyError>(e),
                    },
                },
            },
    {
        Self::load("\ngraph [            \n   id 4           \n]")
    }

    /// The nodes of the graph the topology was read from.
    pub fn nodes(&self) -> (r: &Vec<GmlNode>)
        ensures
            r@ == self.graph().nodes@,
    {
        &self.grf.nodes
    }

    /// The edges of the graph the topology was read from.
    pub fn edges(&self) -> (r: &Vec<GmlEdge>)
        ensures
            r@ == self.graph().edges@,
    {
        &self.grf.edges
    }

    /// An IPv4 address held by node `node`, if there is one.
    pub fn ipv4_of_node(&self, node: u8) -> (r: Option<Ipv4AddrC>)
        requires
            self.wf(),
        ensures
            match r {
                Some(k) => self.ipv4_nodes().contains_key(k) && self.ipv4_nodes()[k].0 == node,
                None => forall|k: Ipv4AddrC| #[trigger] self.ipv4_nodes().contains_key(k) ==> self.ipv4_nodes()[k].0 != node,
            },
    {
        self.ip4_node.key_of_node(node)
    }

    /// An IPv6 address held by node `node`, if there is one.
    pub fn ipv6_of_node(&self, node: u8) -> (r: Option<Ipv6AddrC>)
        requires
            self.wf(),
        ensures
            match r {
                Some(k) => self.ipv6_nodes().contains_key(k) && self.ipv6_nodes()[k].0 == node,
                None => forall|k: Ipv6AddrC| #[trigger] self.ipv6_nodes().contains_key(k) ==> self.ipv6_nodes()[k].0 != node,
            },
    {
        self.ip6_node.key_of_node(node)
    }

    /// Whether no node holds an IPv6 address.
    pub fn has_no_ipv6(&self) -> (r: bool)
        requires
            self.wf(),
        ensures
            r == (self.ipv6_nodes().dom() == Set::<Ipv6AddrC>::empty()),
    {
        self.ip6_node.is_empty()
    }

    /// Whether node `node` holds an IPv4 address.
    pub open spec fn holds_ipv4(&self, node: u8) -> bool {
        exists|k: Ipv4AddrC| #[trigger] self.ipv4_nodes().contains_key(k) && self.ipv4_nodes()[k].0 == node
    }

    /// Whether node `node` holds an IPv6 address.
    pub open spec fn holds_ipv6(&self, node: u8) -> bool {
        exists|k: Ipv6AddrC| #[trigger] self.ipv6_nodes().contains_key(k) && self.ipv6_nodes()[k].0 == node
    }

    /// The addresses to give the ends of a link from node `source` to node
    /// `target`: an IPv4 address of each; an IPv6 address of each, or the
    /// unspecified address (all zeros) for both where no node holds an IPv6
    /// address. Nothing where a node lacks an address it needs.
    pub fn link_addresses(&self, source: u8, target: u8) -> (r: Option<LinkAddresses>)
        requires
            self.wf(),
        ensures
            r is Some <==> {
                &&& self.holds_ipv4(source)
                &&& self.holds_ipv4(target)
                &&& self.ipv6_nodes().dom() == Set::<Ipv6AddrC>::empty() || (self.holds_ipv6(source)
                    && self.holds_ipv6(target))
            },
            r matches Some(a) ==> {
                &&& self.ipv4_nodes().contains_key(a.ipv4_source)
                &&& self.ipv4_nodes()[a.ipv4_source].0 == source
                &&& self.ipv4_nodes().contains_key(a.ipv4_target)
                &&& self.ipv4_nodes()[a.ipv4_target].0 == target
                &&& if self.ipv6_nodes().dom() == Set::<Ipv6AddrC>::empty() {
                    &&& a.ipv6_source.segments@ == Seq::new(8, |i: int| 0u16)
                    &&& a.ipv6_target.segments@ == Seq::new(8, |i: int| 0u16)
                } else {
                    &&& self.ipv6_nodes().contains_key(a.ipv6_source)
                    &&& self.ipv6_nodes()[a.ipv6_source].0 == source
                    &&& self.ipv6_nodes().contains_key(a.ipv6_target)
                    &&& self.ipv6_nodes()[a.ipv6_target].0 == target
                }
            },
    {
        let ipv4_source = match self.ipv4_of_node(source) {
            Some(a) => a,
            None => return None,
        };
        let ipv4_target = match self.ipv4_of_node(target) {
            Some(a) => a,
            None => return None,
        };
        if self.has_no_ipv6() {
            let zero = Ipv6AddrC::new(0, 0, 0, 0, 0, 0, 0, 0);
            assert(zero.segments@ =~= Seq::new(8, |i: int| 0u16));
            return Some(LinkAddresses { ipv4_source, ipv6_source: zero, ipv4_target, ipv6_target: zero });
        }
        let ipv6_source = match self.ipv6_of_node(source) {
            Some(a) => a,
            None => return None,
        };
        let ipv6_target = match self.ipv6_of_node(target) {
            Some(a) => a,
            None => return None,
        };
        Some(LinkAddresses { ipv4_source, ipv6_source, ipv4_target, ipv6_target })
    }
}

/// A symmetric link carries packets both ways: it links `(a, ia)` to
/// `(b, ib)` exactly when it links `(b, ib)` to `(a, ia)`.
pub proof fn lemma_symmetric_link(l: Link, a: u8, ia: u8, b: u8, ib: u8)
    requires
        l.symmetric,
    ensures
        link_matches(l, a, ia, b, ib) == link_matches(l, b, ib, a, ia),
{
}

/// Along links that are all symmetric, looking for the delay from `(a, ia)`
/// to `(b, ib)` from position `i` on gives what looking from `(b, ib)` to
/// `(a, ia)` gives, faults included.
proof fn lemma_symmetric_delay_from(links: Seq<Option<Link>>, a: u8, ia: u8, b: u8, ib: u8, i: nat)
    requires
        forall|k: int| 0 <= k < links.len() && (#[trigger] links[k]) is Some ==> links[k]->0.symmetric,
    ensures
        delay_from(links, (b, ib), a, ia, i) == delay_from(links, (a, ia), b, ib, i),
        delay_ok_from(links, (b, ib), a, ia, i) == delay_ok_from(links, (a, ia), b, ib, i),
    decreases links.len() - i,
{
    if i < links.len() {
        if links[i as int] is Some {
            lemma_symmetric_link(links[i as int]->0, a, ia, b, ib);
        }
        lemma_symmetric_delay_from(links, a, ia, b, ib, i + 1);
    }
}

/// Where every link is symmetric, the delay from `(a, ia)` to `(b, ib)` is
/// the delay from `(b, ib)` to `(a, ia)`, and looking for one meets a fault
/// exactly when looking for the other does.
pub proof fn lemma_symmetric_delay(links: Seq<Option<Link>>, a: u8, ia: u8, b: u8, ib: u8)
    requires
        forall|i: int| 0 <= i < links.len() && (#[trigger] links[i]) is Some ==> links[i]->0.symmetric,
    ensures
        link_delay(links, (b, ib), a, ia) == link_delay(links, (a, ia), b, ib),
        link_delay_ok(links, (b, ib), a, ia) == link_delay_ok(links, (a, ia), b, ib),
{
    lemma_symmetric_delay_from(links, a, ia, b, ib, 0);
}

} // verus!
