//! The configuration document model and its boundary with the `kdl` crate.
//!
//! A configuration file is an opaque structured document: a list of named
//! nodes, each with ordered entries (positional or named values) and an
//! optional block of child nodes. The orchestrator reads exactly two levels
//! of that tree, so the model exposes the top-level nodes and their direct
//! children; anything nested deeper is never consulted.
//!
//! The `kdl` crate does the lexical work. Everything this library states
//! about a parsed document is phrased over [`kdl_nodes`], the abstract
//! contents of a `kdl::KdlDocument`, and [`kdl_document`], the abstract
//! result of parsing a piece of text.

use vstd::prelude::*;

use crate::errors::Error;

verus! {

/// The abstract value of one entry: an optional name and a value.
pub ghost struct EntryView {
    pub name: Option<Seq<char>>,
    pub value: ValueView,
}

/// The abstract value carried by an entry. The orchestrator only
/// distinguishes strings, integers, and everything else.
pub ghost enum ValueView {
    Str(Seq<char>),
    Int(int),
    Other,
}

/// The abstract value of a child node: its name and its ordered entries.
pub ghost struct ChildView {
    pub name: Seq<char>,
    pub entries: Seq<EntryView>,
}

/// The abstract value of a top-level node: its name and, if it has a block
/// of children, their ordered values.
pub ghost struct NodeView {
    pub name: Seq<char>,
    pub children: Option<Seq<ChildView>>,
}

/// A value read out of a document entry.
#[derive(Debug, Clone, PartialEq)]
pub enum Value {
    Str(String),
    Int(i128),
    Other,
}

impl View for Value {
    type V = ValueView;

    open spec fn view(&self) -> ValueView {
        match self {
            Value::Str(s) => ValueView::Str(s@),
            Value::Int(i) => ValueView::Int(*i as int),
            Value::Other => ValueView::Other,
        }
    }
}

/// One entry of a document node: an optional name and a value.
#[derive(Debug, Clone, PartialEq)]
pub struct Entry {
    pub name: Option<String>,
    pub value: Value,
}

impl View for Entry {
    type V = EntryView;

    open spec fn view(&self) -> EntryView {
        EntryView {
            name: match self.name {
                Some(ref n) => Some(n@),
                None => None,
            },
            value: self.value@,
        }
    }
}

/// The abstract values of a sequence of entries.
pub open spec fn entry_views(s: Seq<Entry>) -> Seq<EntryView> {
    s.map_values(|e: Entry| e@)
}

#[verifier::external_type_specification]
#[verifier::external_body]
pub struct ExKdlDocument(kdl::KdlDocument);

/// The contents of a parsed document: its top-level nodes, each with its
/// name and the names and entries of its direct children.
pub uninterp spec fn kdl_nodes(d: kdl::KdlDocument) -> Seq<NodeView>;

/// The result of parsing a piece of text as a document: `None` when the
/// text is not well-formed, otherwise the contents of the document. The
/// result depends on the text alone.
pub uninterp spec fn kdl_document(s: Seq<char>) -> Option<Seq<NodeView>>;

/// Relies on `kdl::KdlDocument::parse`: parses the text into a document,
/// deterministically from the text alone; the error is rendered as a string.
#[verifier::external_body]
fn parse_kdl(text: &str) -> (r: Result<kdl::KdlDocument, String>)
    ensures
        r is Ok <==> kdl_document(text@) is Some,
        r matches Ok(d) ==> kdl_nodes(d) == kdl_document(text@)->Some_0,
{
    kdl::KdlDocument::parse(text).map_err(|e| e.to_string())
}

/// Relies on `kdl::KdlDocument::nodes`: the document's top-level nodes.
#[verifier::external_body]
pub(crate) fn doc_node_count(d: &kdl::KdlDocument) -> (n: usize)
    ensures
        n == kdl_nodes(*d).len(),
{
    d.nodes().len()
}

/// Relies on `kdl::KdlNode::name` and `kdl::KdlIdentifier::value`: the name
/// of the `i`-th top-level node.
#[verifier::external_body]
pub(crate) fn doc_node_name(d: &kdl::KdlDocument, i: usize) -> (r: String)
    requires
        i < kdl_nodes(*d).len(),
    ensures
        r@ == kdl_nodes(*d)[i as int].name,
{
    d.nodes()[i].name().value().to_string()
}

/// Relies on `kdl::KdlNode::children`: whether the `i`-th top-level node has
/// a block of children.
#[verifier::external_body]
pub(crate) fn doc_node_has_children(d: &kdl::KdlDocument, i: usize) -> (r: bool)
    requires
        i < kdl_nodes(*d).len(),
    ensures
        r == (kdl_nodes(*d)[i as int].children is Some),
{
    d.nodes()[i].children().is_some()
}

/// Relies on `kdl::KdlNode::children` and `kdl::KdlDocument::nodes`: how
/// many children the `i`-th top-level node has.
#[verifier::external_body]
pub(crate) fn doc_child_count(d: &kdl::KdlDocument, i: usize) -> (n: usize)
    requires
        i < kdl_nodes(*d).len(),
        kdl_nodes(*d)[i as int].children is Some,
    ensures
        n == kdl_nodes(*d)[i as int].children->Some_0.len(),
{
    d.nodes()[i].children().unwrap().nodes().len()
}

/// Relies on `kdl::KdlNode::name` and `kdl::KdlIdentifier::value`: the name
/// of the `j`-th child of the `i`-th top-level node.
#[verifier::external_body]
pub(crate) fn doc_child_name(d: &kdl::KdlDocument, i: usize, j: usize) -> (r: String)
    requires
        i < kdl_nodes(*d).len(),
        kdl_nodes(*d)[i as int].children is Some,
        j < kdl_nodes(*d)[i as int].children->Some_0.len(),
    ensures
        r@ == kdl_nodes(*d)[i as int].children->Some_0[j as int].name,
{
    d.nodes()[i].children().unwrap().nodes()[j].name().value().to_string()
}

/// Relies on `kdl::KdlNode::entries`, `kdl::KdlEntry::name`,
/// `kdl::KdlEntry::value` and the `kdl::KdlValue` variants: the ordered
/// entries of the `j`-th child of the `i`-th top-level node, with string and
/// integer values carried over and every other value kind marked as such.
#[verifier::external_body]
pub(crate) fn doc_child_entries(d: &kdl::KdlDocument, i: usize, j: usize) -> (r: Vec<Entry>)
    requires
        i < kdl_nodes(*d).len(),
        kdl_nodes(*d)[i as int].children is Some,
        j < kdl_nodes(*d)[i as int].children->Some_0.len(),
    ensures
        entry_views(r@) == kdl_nodes(*d)[i as int].children->Some_0[j as int].entries,
{
    d.nodes()[i].children().unwrap().nodes()[j].entries().iter().map(|e| Entry {
        name: e.name().map(|n| n.value().to_string()),
        value: match e.value() {
            kdl::KdlValue::String(s) => Value::Str(s.clone()),
            kdl::KdlValue::Integer(n) => Value::Int(*n),
            _ => Value::Other,
        },
    }).collect()
}

/// Parses configuration text into a document, or reports the document
/// grammar's own error rendered as a string.
pub fn parse_document(text: &str) -> (r: Result<kdl::KdlDocument, Error>)
    ensures
        r is Ok <==> kdl_document(text@) is Some,
        r matches Ok(d) ==> kdl_nodes(d) == kdl_document(text@)->Some_0,
        r matches Err(e) ==> e@ matches crate::errors::ErrorView::Document(_),
{
    match parse_kdl(text) {
        Ok(d) => Ok(d),
        Err(m) => Err(Error::Document(m)),
    }
}

} // verus!
