//! A parsed KDL configuration document as plain values: nodes with a name,
//! their entries' values and optional child nodes.
use vstd::prelude::*;

verus! {

/// A number as the document wrote it: a float (its `f64` bits) or an
/// integer. The compositor converts it to the floating-point setting.
#[derive(Clone, Copy, Debug, PartialEq, Eq, Structural)]
pub enum ConfigNumber {
    Float(u64),
    Integer(i128),
}

/// One entry value of a node.
#[derive(Clone, Debug)]
pub enum ConfigValue {
    Text(String),
    Integer(i128),
    /// A floating-point number, as the bit pattern of its `f64`.
    Float(u64),
    Bool(bool),
    Null,
}

/// One node: its name, the values of its entries (arguments and
/// properties, in order) and its children block, if any.
#[derive(Debug)]
pub struct ConfigNode {
    pub name: String,
    pub entries: Vec<ConfigValue>,
    pub children: Option<Vec<ConfigNode>>,
}

/// The abstract content of a [`ConfigValue`].
pub ghost enum ValueView {
    Text(Seq<char>),
    Integer(int),
    Float(u64),
    Bool(bool),
    Null,
}

/// The abstract content of a [`ConfigNode`].
pub ghost struct NodeView {
    pub name: Seq<char>,
    pub entries: Seq<ValueView>,
    pub children: Option<Seq<NodeView>>,
}

pub open spec fn value_view(v: ConfigValue) -> ValueView {
    match v {
        ConfigValue::Text(s) => ValueView::Text(s@),
        ConfigValue::Integer(i) => ValueView::Integer(i as int),
        ConfigValue::Float(b) => ValueView::Float(b),
        ConfigValue::Bool(b) => ValueView::Bool(b),
        ConfigValue::Null => ValueView::Null,
    }
}

pub open spec fn values_view(vs: Seq<ConfigValue>) -> Seq<ValueView> {
    vs.map_values(|v: ConfigValue| value_view(v))
}

pub open spec fn node_view(n: ConfigNode) -> NodeView
    decreases n,
{
    NodeView {
        name: n.name@,
        entries: values_view(n.entries@),
        children: match n.children {
            Some(cs) => Some(nodes_view(cs@)),
            None => None,
        },
    }
}

pub open spec fn nodes_view(ns: Seq<ConfigNode>) -> Seq<NodeView>
    decreases ns,
{
    if ns.len() == 0 {
        Seq::<NodeView>::empty()
    } else {
        nodes_view(ns.drop_last()).push(node_view(ns.last()))
    }
}

pub proof fn lemma_nodes_view_len(ns: Seq<ConfigNode>)
    ensures
        nodes_view(ns).len() == ns.len(),
        forall|i: int| 0 <= i < ns.len() ==> #[trigger] nodes_view(ns)[i] == node_view(ns[i]),
    decreases ns.len(),
{
    if ns.len() > 0 {
        lemma_nodes_view_len(ns.drop_last());
        assert forall|i: int| 0 <= i < ns.len() implies #[trigger] nodes_view(ns)[i] == node_view(
            ns[i],
        ) by {
            if i < ns.len() - 1 {
                assert(nodes_view(ns)[i] == nodes_view(ns.drop_last())[i]);
                assert(ns.drop_last()[i] == ns[i]);
            }
        }
    }
}

/// The KDL document type of the `kdl` crate.
#[verifier::external_type_specification]
#[verifier::external_body]
pub struct ExKdlDocument(kdl::KdlDocument);

/// The KDL node type of the `kdl` crate.
#[verifier::external_type_specification]
#[verifier::external_body]
pub struct ExKdlNode(kdl::KdlNode);

/// The nodes a parsed document holds, as plain values.
pub uninterp spec fn kdl_doc_content(d: kdl::KdlDocument) -> Seq<NodeView>;

/// What a parsed node holds, as plain values.
pub uninterp spec fn kdl_node_content(n: kdl::KdlNode) -> NodeView;

/// What `text` parses to as a KDL document (`None`: not a document).
pub uninterp spec fn kdl_parsed(text: Seq<char>) -> Option<Seq<NodeView>>;

/// Calls `KdlDocument::parse` (via `str::parse`). The contract claims only
/// that the outcome is a function of the text and that a parsed document
/// holds what the text parses to; the KDL grammar is not stated.
#[verifier::external_body]
fn kdl_parse(text: &str) -> (r: Option<kdl::KdlDocument>)
    ensures
        match r {
            Some(d) => kdl_parsed(text@) == Some(kdl_doc_content(d)),
            None => kdl_parsed(text@) is None,
        },
{
    text.parse::<kdl::KdlDocument>().ok()
}

/// Calls `KdlDocument::nodes` and takes the length.
#[verifier::external_body]
fn kdl_node_count(d: &kdl::KdlDocument) -> (n: usize)
    ensures
        n == kdl_doc_content(*d).len(),
{
    d.nodes().len()
}

/// Calls `KdlDocument::nodes` and takes node `i`.
#[verifier::external_body]
fn kdl_node_at(d: &kdl::KdlDocument, i: usize) -> (n: &kdl::KdlNode)
    requires
        i < kdl_doc_content(*d).len(),
    ensures
        kdl_node_content(*n) == kdl_doc_content(*d)[i as int],
{
    &d.nodes()[i]
}

/// Calls `KdlNode::name` and `KdlIdentifier::value`.
#[verifier::external_body]
fn kdl_node_name(n: &kdl::KdlNode) -> (s: String)
    ensures
        s@ == kdl_node_content(*n).name,
{
    n.name().value().to_string()
}

/// Calls `KdlNode::entries` and takes the length.
#[verifier::external_body]
fn kdl_entry_count(n: &kdl::KdlNode) -> (c: usize)
    ensures
        c == kdl_node_content(*n).entries.len(),
{
    n.entries().len()
}

/// Calls `KdlNode::entries` and `KdlEntry::value` for entry `i`, and
/// converts the `KdlValue` variant by variant (a float by its bits).
#[verifier::external_body]
fn kdl_entry_value(n: &kdl::KdlNode, i: usize) -> (v: ConfigValue)
    requires
        i < kdl_node_content(*n).entries.len(),
    ensures
        value_view(v) == kdl_node_content(*n).entries[i as int],
{
    match n.entries()[i].value() {
        kdl::KdlValue::String(s) => ConfigValue::Text(s.clone()),
        kdl::KdlValue::Integer(x) => ConfigValue::Integer(*x),
        kdl::KdlValue::Float(f) => ConfigValue::Float(f.to_bits()),
        kdl::KdlValue::Bool(b) => ConfigValue::Bool(*b),
        kdl::KdlValue::Null => ConfigValue::Null,
    }
}

/// Calls `KdlNode::children`.
#[verifier::external_body]
fn kdl_children(n: &kdl::KdlNode) -> (c: Option<&kdl::KdlDocument>)
    ensures
        match c {
            Some(d) => kdl_node_content(*n).children == Some(kdl_doc_content(*d)),
            None => kdl_node_content(*n).children is None,
        },
{
    n.children()
}

fn node_model(n: &kdl::KdlNode, Ghost(depth): Ghost<NodeView>) -> (m: ConfigNode)
    requires
        depth == kdl_node_content(*n),
    ensures
        node_view(m) == kdl_node_content(*n),
    decreases depth,
{
    let name = kdl_node_name(n);
    let count = kdl_entry_count(n);
    let mut entries: Vec<ConfigValue> = Vec::new();
    let mut i: usize = 0;
    while i < count
        invariant
            i <= count,
            count == kdl_node_content(*n).entries.len(),
            entries@.len() == i,
            values_view(entries@) == kdl_node_content(*n).entries.take(i as int),
        decreases count - i,
    {
        let v = kdl_entry_value(n, i);
        entries.push(v);
        proof {
            assert(values_view(entries@) =~= kdl_node_content(*n).entries.take(i + 1));
        }
        i = i + 1;
    }
    proof {
        assert(kdl_node_content(*n).entries.take(count as int) =~= kdl_node_content(*n).entries);
    }
    let children = match kdl_children(n) {
        Some(d) => {
            proof {
                assert(decreases_to!(depth => depth.children));
                assert(decreases_to!(depth.children => depth.children->0));
            }
            Some(doc_model(d, Ghost(kdl_doc_content(*d))))
        },
        None => None,
    };
    ConfigNode { name, entries, children }
}

fn doc_model(d: &kdl::KdlDocument, Ghost(depth): Ghost<Seq<NodeView>>) -> (m: Vec<ConfigNode>)
    requires
        depth == kdl_doc_content(*d),
    ensures
        nodes_view(m@) == kdl_doc_content(*d),
    decreases depth,
{
    let count = kdl_node_count(d);
    let mut out: Vec<ConfigNode> = Vec::new();
    let mut i: usize = 0;
    while i < count
        invariant
            i <= count,
            count == kdl_doc_content(*d).len(),
            depth == kdl_doc_content(*d),
            nodes_view(out@) == kdl_doc_content(*d).take(i as int),
        decreases count - i,
    {
        let n = kdl_node_at(d, i);
        proof {
            assert(decreases_to!(depth => depth[i as int]));
        }
        let m = node_model(n, Ghost(kdl_node_content(*n)));
        let ghost before = out@;
        out.push(m);
        proof {
            assert(out@.drop_last() =~= before);
            assert(nodes_view(out@) =~= kdl_doc_content(*d).take(i + 1));
        }
        i = i + 1;
    }
    proof {
        assert(kdl_doc_content(*d).take(count as int) =~= kdl_doc_content(*d));
    }
    out
}

/// Parse configuration text into its nodes; `None` when it is not a KDL
/// document.
pub fn parse_config_document(text: &str) -> (r: Option<Vec<ConfigNode>>)
    ensures
        match r {
            Some(ns) => kdl_parsed(text@) == Some(nodes_view(ns@)),
            None => kdl_parsed(text@) is None,
        },
{
    match kdl_parse(text) {
        Some(d) => Some(doc_model(&d, Ghost(kdl_doc_content(d)))),
        None => None,
    }
}

} // verus!
