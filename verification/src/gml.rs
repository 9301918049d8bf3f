//! Graph Modelling Language (GML) documents as plain values.
//!
//! The text is parsed by the `gml_parser` crate; its result is carried here
//! as a tree of strings, integers and attribute lists, which the topology
//! logic reads.

use gml_parser::{GMLError, GMLObject, GMLValue, Graph, HasGMLAttributes};
use vstd::prelude::*;

verus! {

/// The value of a GML attribute.
#[derive(Debug, PartialEq, Eq)]
pub enum GmlValue {
    Str(String),
    Int(i64),
    Obj(Vec<(String, GmlValue)>),
}

/// A node of a GML graph: its id, its label and its other attributes, in the
/// order `gml_parser` leaves them.
#[derive(Debug, PartialEq, Eq)]
pub struct GmlNode {
    pub id: i64,
    pub label: Option<String>,
    pub attrs: Vec<(String, GmlValue)>,
}

/// An edge of a GML graph: its ends, its label and its other attributes, in
/// the order `gml_parser` leaves them.
#[derive(Debug, PartialEq, Eq)]
pub struct GmlEdge {
    pub source: i64,
    pub target: i64,
    pub label: Option<String>,
    pub attrs: Vec<(String, GmlValue)>,
}

/// A GML graph: its nodes and its edges, in the order `gml_parser` gives
/// them (which need not be that of the document).
#[derive(Debug, PartialEq, Eq)]
pub struct GmlGraph {
    pub id: Option<i64>,
    pub nodes: Vec<GmlNode>,
    pub edges: Vec<GmlEdge>,
}

#[verifier::external_type_specification]
#[verifier::external_body]
pub struct ExGMLError(GMLError);

#[verifier::external_type_specification]
#[verifier::external_body]
pub struct ExGMLValue(GMLValue);

#[verifier::external_type_specification]
#[verifier::external_body]
pub struct ExGmlNodeOfParser(gml_parser::Node);

#[verifier::external_type_specification]
#[verifier::external_body]
pub struct ExGmlEdgeOfParser(gml_parser::Edge);

/// The attribute list that `gml_parser` reads from a GML text, where it reads one.
pub uninterp spec fn gml_document(text: Seq<char>) -> Option<Seq<(String, GmlValue)>>;

/// The graph that `gml_parser` builds from a GML attribute list, where it builds one.
pub uninterp spec fn gml_graph(doc: Seq<(String, GmlValue)>) -> Option<GmlGraph>;

/// Converts a value of `gml_parser` into a plain value, variant for variant.
#[verifier::external_body]
fn gml_value_from(v: GMLValue) -> GmlValue {
    match v {
        GMLValue::GMLString(s) => GmlValue::Str(s),
        GMLValue::GMLInt(i) => GmlValue::Int(i),
        GMLValue::GMLObject(o) => GmlValue::Obj(gml_pairs_from(o.pairs)),
    }
}

/// Converts an attribute list of `gml_parser` into plain values, pair for pair.
#[verifier::external_body]
fn gml_pairs_from(p: Vec<(String, GMLValue)>) -> Vec<(String, GmlValue)> {
    p.into_iter().map(|(k, v)| (k, gml_value_from(v))).collect()
}

/// Converts a plain value back into a value of `gml_parser`, variant for variant.
#[verifier::external_body]
fn gml_value_into(v: GmlValue) -> GMLValue {
    match v {
        GmlValue::Str(s) => GMLValue::GMLString(s),
        GmlValue::Int(i) => GMLValue::GMLInt(i),
        GmlValue::Obj(o) => GMLValue::GMLObject(Box::new(GMLObject { pairs: gml_pairs_into(o) })),
    }
}

/// Converts plain attribute pairs back into those of `gml_parser`, pair for pair.
#[verifier::external_body]
fn gml_pairs_into(p: Vec<(String, GmlValue)>) -> Vec<(String, GMLValue)> {
    p.into_iter().map(|(k, v)| (k, gml_value_into(v))).collect()
}

/// `gml_parser::GMLObject::from_str`: reads the attribute list of a GML text,
/// or fails. What it reads is named by `gml_document`, a function of the
/// text alone; the error's message is not stated.
#[verifier::external_body]
pub(crate) fn gml_object_from_str(text: &str) -> (r: Result<Vec<(String, GmlValue)>, GMLError>)
    ensures
        r is Ok <==> gml_document(text@) is Some,
        r matches Ok(doc) ==> gml_document(text@) == Some(doc@),
{
    match GMLObject::from_str(text) {
        Ok(o) => Ok(gml_pairs_from(o.pairs)),
        Err(e) => Err(e),
    }
}

/// `gml_parser::Graph::from_gml`: builds the graph that a GML attribute list
/// describes (its `graph` attribute), or fails. What it builds is named by
/// `gml_graph`, a function of the attribute list alone; the error's message
/// is not stated.
#[verifier::external_body]
pub(crate) fn graph_from_gml(doc: Vec<(String, GmlValue)>) -> (r: Result<GmlGraph, GMLError>)
    ensures
        r is Ok <==> gml_graph(doc@) is Some,
        r matches Ok(g) ==> gml_graph(doc@) == Some(g),
{
    match Graph::from_gml(GMLObject { pairs: gml_pairs_into(doc) }) {
        Ok(g) => Ok(GmlGraph {
            id: g.id,
            nodes: g.nodes.into_iter().map(gml_node_from).collect(),
            edges: g.edges.into_iter().map(gml_edge_from).collect(),
        }),
        Err(e) => Err(e),
    }
}

/// Converts a node of `gml_parser` into plain values, field for field.
#[verifier::external_body]
fn gml_node_from(n: gml_parser::Node) -> GmlNode {
    GmlNode { id: n.id, label: n.label.clone(), attrs: gml_pairs_from(n.attributes().clone()) }
}

/// Converts an edge of `gml_parser` into plain values, field for field.
#[verifier::external_body]
fn gml_edge_from(e: gml_parser::Edge) -> GmlEdge {
    GmlEdge {
        source: e.source,
        target: e.target,
        label: e.label.clone(),
        attrs: gml_pairs_from(e.attributes().clone()),
    }
}

} // verus!
