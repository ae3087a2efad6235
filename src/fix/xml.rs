use crate::text::text_is;
use vstd::prelude::*;

verus! {

/// What a node of a parsed document is: its local tag name (empty for a
/// node that is no element), its attributes in order, and the index of its
/// parent among the document's nodes.
pub ghost struct XmlNodeView {
    pub name: Seq<char>,
    pub attributes: Seq<(Seq<char>, Seq<char>)>,
    pub parent: Option<usize>,
}

/// One node of a parsed document, listed in document order, the root first.
pub struct XmlNode {
    pub name: String,
    pub attributes: Vec<(String, String)>,
    pub parent: Option<usize>,
}

impl View for XmlNode {
    type V = XmlNodeView;

    open spec fn view(&self) -> XmlNodeView {
        XmlNodeView {
            name: self.name@,
            attributes: self.attributes@.map_values(|a: (String, String)| (a.0@, a.1@)),
            parent: self.parent,
        }
    }
}

/// The views of a list of nodes.
pub open spec fn nodes_view(nodes: Seq<XmlNode>) -> Seq<XmlNodeView> {
    nodes.map_values(|n: XmlNode| n@)
}

/// The nodes of the document written in `text`, or `None` where the text is
/// not a well-formed document.
pub uninterp spec fn xml_nodes_of(text: Seq<char>) -> Option<Seq<XmlNodeView>>;

/// Relies on roxmltree::Document::parse, which reads the text into a tree or
/// fails, and on the tree's walk in document order: what comes back depends
/// on the text alone. Each node's parent is its index in that walk.
#[verifier::external_body]
pub fn parse_xml(text: &str) -> (r: Result<Vec<XmlNode>, String>)
    ensures
        match r {
            Ok(v) => xml_nodes_of(text@) == Some(nodes_view(v@)),
            Err(_) => xml_nodes_of(text@) is None,
        },
{
    let doc = roxmltree::Document::parse(text).map_err(|e| e.to_string())?;
    let mut nodes = Vec::new();
    for n in doc.descendants() {
        let mut attributes = Vec::new();
        for a in n.attributes() {
            attributes.push((a.name().to_string(), a.value().to_string()));
        }
        let parent = n.parent().map(|p| p.id().get_usize());
        nodes.push(XmlNode { name: n.tag_name().name().to_string(), attributes, parent });
    }
    Ok(nodes)
}

/// The value of the first attribute of `attrs` named `key`.
pub open spec fn attr_lookup(attrs: Seq<(Seq<char>, Seq<char>)>, key: Seq<char>) -> Option<
    Seq<char>,
>
    decreases attrs.len(),
{
    if attrs.len() == 0 {
        None
    } else if attrs[0].0 == key {
        Some(attrs[0].1)
    } else {
        attr_lookup(attrs.drop_first(), key)
    }
}

/// The value of the attribute `key` of `n`.
pub open spec fn attr_of(n: XmlNodeView, key: Seq<char>) -> Option<Seq<char>> {
    attr_lookup(n.attributes, key)
}

/// The value of the attribute `key` of `node`.
pub fn attribute<'a>(node: &'a XmlNode, key: &str) -> (r: Option<&'a String>)
    ensures
        match r {
            Some(v) => attr_of(node@, key@) == Some(v@),
            None => attr_of(node@, key@) is None,
        },
{
    let ghost attrs = node@.attributes;
    let mut i: usize = 0;
    assert(attrs.skip(0) =~= attrs);
    while i < node.attributes.len()
        invariant
            i <= attrs.len(),
            attrs == node@.attributes,
            attr_of(node@, key@) == attr_lookup(attrs.skip(i as int), key@),
        decreases attrs.len() - i,
    {
        assert(attrs.skip(i as int).drop_first() =~= attrs.skip(i + 1));
        assert(attrs.skip(i as int)[0] == attrs[i as int]);
        if text_is(node.attributes[i].0.as_str(), key) {
            return Some(&node.attributes[i].1);
        }
        i = i + 1;
    }
    None
}

/// The indices among the first `k` nodes whose parent is `p`, in order.
pub open spec fn children_upto(nodes: Seq<XmlNodeView>, p: usize, k: nat) -> Seq<usize>
    decreases k,
{
    if k == 0 {
        Seq::empty()
    } else {
        let prev = children_upto(nodes, p, (k - 1) as nat);
        if nodes[k - 1].parent == Some(p) {
            prev.push((k - 1) as usize)
        } else {
            prev
        }
    }
}

/// The children of the node `p`, in document order.
pub open spec fn children_of(nodes: Seq<XmlNodeView>, p: usize) -> Seq<usize> {
    children_upto(nodes, p, nodes.len())
}

/// Every index of `children_upto` lies below `k`.
pub proof fn lemma_children_in_range(nodes: Seq<XmlNodeView>, p: usize, k: nat)
    requires
        k <= usize::MAX,
    ensures
        forall|i: int|
            0 <= i < children_upto(nodes, p, k).len() ==> (children_upto(nodes, p, k)[i] as int)
                < k,
    decreases k,
{
    if k > 0 {
        lemma_children_in_range(nodes, p, (k - 1) as nat);
        let prev = children_upto(nodes, p, (k - 1) as nat);
        assert forall|i: int| 0 <= i < children_upto(nodes, p, k).len() implies (children_upto(
            nodes,
            p,
            k,
        )[i] as int) < k by {
            if i < prev.len() {
                assert(children_upto(nodes, p, k)[i] == prev[i]);
            }
        }
    }
}

/// The children of the node `p`, in document order.
pub fn children(nodes: &Vec<XmlNode>, p: usize) -> (r: Vec<usize>)
    ensures
        r@ == children_of(nodes_view(nodes@), p),
        forall|i: int| 0 <= i < r@.len() ==> r@[i] < nodes@.len(),
{
    let ghost nv = nodes_view(nodes@);
    let mut r: Vec<usize> = Vec::new();
    let mut k: usize = 0;
    while k < nodes.len()
        invariant
            k <= nodes@.len(),
            nv == nodes_view(nodes@),
            r@ == children_upto(nv, p, k as nat),
        decreases nodes@.len() - k,
    {
        if nodes[k].parent == Some(p) {
            r.push(k);
        }
        k = k + 1;
    }
    proof {
        lemma_children_in_range(nv, p, nodes@.len());
    }
    r
}

} // verus!
