//! The document tree: text and element nodes with their attributes.

use vstd::prelude::*;
use crate::strutil::str_eq;

verus! {

broadcast use {
    vstd::std_specs::vec::axiom_vec_index_decreases,
    vstd::std_specs::vec::axiom_vec_decreases_to_view,
};

/// A mapping from attribute names to attribute values.
///
/// Entries are kept in a list scanned front to back, so the entry
/// nearest the front wins; `insert` prepends, which makes the view
/// obey the usual map-insert law.
#[derive(Debug)]
pub struct AttrMap {
    entries: Vec<(String, String)>,
}

/// The map denoted by an entry list: the entry nearest the front wins.
pub open spec fn attrs_map_of(s: Seq<(String, String)>) -> Map<Seq<char>, Seq<char>>
    decreases s.len(),
{
    if s.len() == 0 {
        Map::empty()
    } else {
        attrs_map_of(s.drop_first()).insert(s[0].0@, s[0].1@)
    }
}

impl View for AttrMap {
    type V = Map<Seq<char>, Seq<char>>;

    closed spec fn view(&self) -> Map<Seq<char>, Seq<char>> {
        attrs_map_of(self.entries@)
    }
}

/// In the map denoted by an entry list, a key is present exactly when
/// some entry carries it.
proof fn lemma_attrs_contains(s: Seq<(String, String)>, name: Seq<char>)
    ensures
        attrs_map_of(s).contains_key(name) <==> exists|j: int| 0 <= j < s.len() && s[j].0@ == name,
    decreases s.len(),
{
    if s.len() > 0 {
        lemma_attrs_contains(s.drop_first(), name);
        if s[0].0@ != name {
            if attrs_map_of(s).contains_key(name) {
                let j = choose|j: int|
                    0 <= j < s.drop_first().len() && s.drop_first()[j].0@ == name;
                assert(s[j + 1].0@ == name);
            }
            if exists|j: int| 0 <= j < s.len() && s[j].0@ == name {
                let j = choose|j: int| 0 <= j < s.len() && s[j].0@ == name;
                assert(s.drop_first()[j - 1].0@ == name);
            }
        }
    }
}

/// The value a key denotes is the one of the frontmost entry carrying
/// it.
proof fn lemma_attrs_value(s: Seq<(String, String)>, name: Seq<char>, i: int)
    requires
        0 <= i < s.len(),
        s[i].0@ == name,
        forall|j: int| 0 <= j < i ==> s[j].0@ != name,
    ensures
        attrs_map_of(s).contains_key(name),
        attrs_map_of(s)[name] == s[i].1@,
    decreases s.len(),
{
    if i > 0 {
        assert(s.drop_first()[i - 1] == s[i]);
        assert(forall|j: int| 0 <= j < i - 1 ==> s.drop_first()[j] == s[j + 1]);
        lemma_attrs_value(s.drop_first(), name, i - 1);
    }
}

impl AttrMap {
    /// An empty attribute map.
    pub fn new() -> (r: Self)
        ensures
            r@ == Map::<Seq<char>, Seq<char>>::empty(),
    {
        AttrMap { entries: Vec::new() }
    }

    /// Record `value` under `name`, shadowing any earlier entry.
    pub fn insert(&mut self, name: String, value: String)
        ensures
            final(self)@ == old(self)@.insert(name@, value@),
    {
        self.entries.insert(0, (name, value));
        proof {
            assert(self.entries@.drop_first() =~= old(self).entries@);
        }
    }

    /// Look up the value recorded under `name`.
    pub fn get(&self, name: &str) -> (r: Option<&String>)
        ensures
            match r {
                Some(v) => self@.contains_key(name@) && v@ == self@[name@],
                None => !self@.contains_key(name@),
            },
    {
        let n: usize = self.entries.len();
        let mut i: usize = 0;
        while i < n
            invariant
                n == self.entries@.len(),
                i <= n,
                forall|j: int| 0 <= j < i ==> self.entries@[j].0@ != name@,
            decreases n - i,
        {
            let pair: &(String, String) = &self.entries[i];
            if str_eq(pair.0.as_str(), name) {
                proof {
                    lemma_attrs_value(self.entries@, name@, i as int);
                }
                return Some(&self.entries[i].1);
            }
            i += 1;
        }
        proof {
            lemma_attrs_contains(self.entries@, name@);
        }
        None
    }
}

/// A node of the document tree.
#[derive(Debug)]
pub struct Node {
    pub children: Vec<Node>,
    pub node_type: NodeType,
}

/// What a document node is: a run of text, or an element.
#[derive(Debug)]
pub enum NodeType {
    Text(String),
    Element(ElementData),
}

/// An element's tag name and attributes.
#[derive(Debug)]
pub struct ElementData {
    pub tag_name: String,
    pub attrs: AttrMap,
}

pub ghost struct ElementDataView {
    pub tag_name: Seq<char>,
    pub attrs: Map<Seq<char>, Seq<char>>,
}

pub ghost enum NodeTypeView {
    Text(Seq<char>),
    Element(ElementDataView),
}

pub ghost struct NodeView {
    pub children: Seq<NodeView>,
    pub node_type: NodeTypeView,
}

impl View for ElementData {
    type V = ElementDataView;

    open spec fn view(&self) -> ElementDataView {
        ElementDataView { tag_name: self.tag_name@, attrs: self.attrs@ }
    }
}

impl View for NodeType {
    type V = NodeTypeView;

    open spec fn view(&self) -> NodeTypeView {
        match self {
            NodeType::Text(t) => NodeTypeView::Text(t@),
            NodeType::Element(e) => NodeTypeView::Element(e@),
        }
    }
}

impl View for Node {
    type V = NodeView;

    open spec fn view(&self) -> NodeView
        decreases self,
    {
        NodeView { children: node_views(self.children@), node_type: self.node_type@ }
    }
}

/// The views of a sequence of nodes, in order.
pub open spec fn node_views(s: Seq<Node>) -> Seq<NodeView>
    decreases s,
{
    if s.len() == 0 {
        Seq::empty()
    } else {
        node_views(s.drop_last()).push(s.last()@)
    }
}

/// `node_views` maps each node to its view, position by position.
pub broadcast proof fn lemma_node_views(s: Seq<Node>)
    ensures
        (#[trigger] node_views(s)).len() == s.len(),
        forall|i: int| 0 <= i < s.len() ==> node_views(s)[i] == s[i]@,
    decreases s,
{
    if s.len() > 0 {
        lemma_node_views(s.drop_last());
        assert(node_views(s) == node_views(s.drop_last()).push(s.last()@));
        assert forall|i: int| 0 <= i < s.len() implies node_views(s)[i] == s[i]@ by {
            if i < s.len() - 1 {
                assert(s.drop_last()[i] == s[i]);
            }
        }
    }
}

/// A text node with no children.
pub fn text(data: String) -> (r: Node)
    ensures
        r@.node_type == NodeTypeView::Text(data@),
        r@.children == Seq::<NodeView>::empty(),
{
    Node { children: Vec::new(), node_type: NodeType::Text(data) }
}

/// An element node with the given tag, attributes, and children.
pub fn elem(tag_name: String, attrs: AttrMap, children: Vec<Node>) -> (r: Node)
    ensures
        r@.node_type == NodeTypeView::Element(
            ElementDataView { tag_name: tag_name@, attrs: attrs@ },
        ),
        r@.children == node_views(children@),
{
    Node { children, node_type: NodeType::Element(ElementData { tag_name, attrs }) }
}

} // verus!
