//! An element as the mapping holds it: values by attribute, children by slot.

use crate::schema::{Cardinality, Codec, Content, SchemaView};
use vstd::prelude::*;

verus! {

/// The value of an attribute.
#[derive(Debug)]
pub enum Scalar {
    Flag(bool),
    Unsigned(usize),
    Byte(u8),
    Signed(isize),
    HexId(u32),
    Text(String),
    /// the index of a symbol in its table
    Symbol(usize),
}

/// The mathematical value of a [`Scalar`].
pub enum ScalarView {
    Flag(bool),
    Unsigned(usize),
    Byte(u8),
    Signed(isize),
    HexId(u32),
    Text(Seq<char>),
    Symbol(usize),
}

impl View for Scalar {
    type V = ScalarView;

    open spec fn view(&self) -> ScalarView {
        match *self {
            Scalar::Flag(b) => ScalarView::Flag(b),
            Scalar::Unsigned(n) => ScalarView::Unsigned(n),
            Scalar::Byte(n) => ScalarView::Byte(n),
            Scalar::Signed(n) => ScalarView::Signed(n),
            Scalar::HexId(n) => ScalarView::HexId(n),
            Scalar::Text(t) => ScalarView::Text(t@),
            Scalar::Symbol(i) => ScalarView::Symbol(i),
        }
    }
}

/// The view of an attribute's value, if it has one.
pub open spec fn value_view(v: Option<Scalar>) -> Option<ScalarView> {
    match v {
        Some(s) => Some(s@),
        None => None,
    }
}

/// One element: its kind, a value or none for each attribute that the kind
/// knows, the children of each slot in document order, and its text.
#[derive(Debug)]
pub struct Node {
    pub kind: usize,
    pub attributes: Vec<Option<Scalar>>,
    pub slots: Vec<Vec<Node>>,
    pub text: String,
}

/// The mathematical value of a [`Node`].
pub struct NodeView {
    pub kind: nat,
    pub attributes: Seq<Option<ScalarView>>,
    pub slots: Seq<Seq<NodeView>>,
    pub text: Seq<char>,
}

/// The value of a node.
pub open spec fn node_view(node: Node) -> NodeView
    decreases node,
{
    NodeView {
        kind: node.kind as nat,
        attributes: Seq::new(node.attributes@.len(), |i: int| value_view(node.attributes@[i])),
        slots: Seq::new(
            node.slots@.len(),
            |i: int|
                Seq::new(
                    node.slots@[i]@.len(),
                    |j: int|
                        if 0 <= i < node.slots@.len() && 0 <= j < node.slots@[i]@.len() {
                            node_view(node.slots@[i]@[j])
                        } else {
                            arbitrary()
                        },
                ),
        ),
        text: node.text@,
    }
}

impl View for Node {
    type V = NodeView;

    open spec fn view(&self) -> NodeView {
        node_view(*self)
    }
}

/// The node with the value `v` for attribute `i`.
pub open spec fn with_attribute(node: NodeView, i: int, v: ScalarView) -> NodeView {
    NodeView { attributes: node.attributes.update(i, Some(v)), ..node }
}

/// The node with `child` in slot `i`: behind the others where the slot holds
/// many, in place of any other where it holds one.
pub open spec fn with_child(node: NodeView, i: int, cardinality: Cardinality, child: NodeView)
    -> NodeView {
    NodeView {
        slots: node.slots.update(
            i,
            if cardinality == Cardinality::Many {
                node.slots[i].push(child)
            } else {
                seq![child]
            },
        ),
        ..node
    }
}

impl Node {
    /// Gives attribute `i` the value `v`.
    pub fn set_attribute(&mut self, i: usize, v: Scalar)
        requires
            i < old(self).attributes.len(),
        ensures
            final(self)@ == with_attribute(old(self)@, i as int, v@),
    {
        self.attributes.set(i, Some(v));
        assert(self@.attributes =~= old(self)@.attributes.update(i as int, Some(v@)));
    }

    /// Puts `child` into slot `i`: behind the others where the slot holds
    /// many, in place of any other where it holds one.
    pub fn add_child(&mut self, i: usize, cardinality: Cardinality, child: Node)
        requires
            i < old(self).slots.len(),
        ensures
            final(self)@ == with_child(old(self)@, i as int, cardinality, child@),
    {
        let ghost before = *self;
        match cardinality {
            Cardinality::Many => {
                self.slots[i].push(child);
            },
            _ => {
                let mut one: Vec<Node> = Vec::new();
                one.push(child);
                self.slots.set(i, one);
            },
        }
        proof {
            let want = with_child(before@, i as int, cardinality, child@).slots;
            assert(self@.attributes =~= before@.attributes);
            assert forall|a: int| 0 <= a < want.len() implies self@.slots[a] == want[a] by {
                assert(self@.slots[a] =~= want[a]);
            }
            assert(self@.slots =~= want);
        }
    }
}

impl ScalarView {
    /// Whether the value is one that `codec` reads and writes.
    pub open spec fn fits(self, codec: Codec, schema: SchemaView) -> bool {
        match (self, codec) {
            (ScalarView::Flag(_), Codec::Flag) => true,
            (ScalarView::Unsigned(_), Codec::Unsigned) => true,
            (ScalarView::Byte(_), Codec::Byte) => true,
            (ScalarView::Signed(_), Codec::Signed) => true,
            (ScalarView::HexId(_), Codec::HexId) => true,
            (ScalarView::Text(_), Codec::Text) => true,
            (ScalarView::Symbol(i), Codec::Symbol(t)) => t < schema.symbols.len() && i
                < schema.symbols[t as int].len(),
            _ => false,
        }
    }
}

impl NodeView {
    /// Whether every value fits its attribute. With `all`, also whether no
    /// required attribute is without a value.
    pub open spec fn attributes_fit(self, schema: SchemaView, all: bool) -> bool {
        &&& self.attributes.len() == schema.kinds[self.kind as int].attributes.len()
        &&& forall|i: int|
            0 <= i < self.attributes.len() ==> match #[trigger] self.attributes[i] {
                Some(v) => v.fits(schema.kinds[self.kind as int].attributes[i].codec, schema),
                None => !all || !schema.kinds[self.kind as int].attributes[i].required,
            }
    }

    /// Whether no slot for one child holds more. With `all`, also whether
    /// every slot that must hold a child holds one.
    pub open spec fn slots_fit(self, schema: SchemaView, all: bool) -> bool {
        &&& self.slots.len() == schema.kinds[self.kind as int].slots.len()
        &&& forall|i: int|
            0 <= i < self.slots.len() ==> match schema.kinds[self.kind as int].slots[i].cardinality {
                Cardinality::Required => (#[trigger] self.slots[i]).len() <= 1 && (all
                    ==> self.slots[i].len() == 1),
                Cardinality::Optional => self.slots[i].len() <= 1,
                Cardinality::Default => self.slots[i].len() <= 1 && (all ==> self.slots[i].len()
                    == 1),
                Cardinality::Many => true,
            }
    }

    /// Whether every child is of a kind that its slot accepts.
    pub open spec fn children_fit(self, schema: SchemaView) -> bool {
        forall|i: int, j: int|
            0 <= i < self.slots.len() && 0 <= j < self.slots[i].len()
                ==> schema.kinds[self.kind as int].slots[i].accepts((#[trigger] self.slots[i][j]).kind)
    }

    /// Whether the node itself, its children left aside, is as its kind asks:
    /// its values, the number and the kinds of its children, and text only
    /// where the kind holds text. With `all`, nothing required is absent;
    /// without, the node may still be missing what was not yet read.
    pub open spec fn fits(self, schema: SchemaView, all: bool) -> bool {
        &&& self.kind < schema.kinds.len()
        &&& self.attributes_fit(schema, all)
        &&& self.slots_fit(schema, all)
        &&& self.children_fit(schema)
        &&& schema.kinds[self.kind as int].content != Content::Text ==> self.text.len() == 0
    }

    /// Whether the node is an element of its kind, and its children of
    /// theirs.
    pub open spec fn conforms(self, schema: SchemaView) -> bool
        decreases self,
    {
        &&& self.fits(schema, true)
        &&& forall|i: int, j: int|
            0 <= i < self.slots.len() && 0 <= j < self.slots[i].len() ==> (#[trigger] self.slots[i][j]).conforms(
                schema,
            )
    }

    /// Whether the node has the shape of its kind, whatever may still be
    /// absent from it, and its children are elements of their kinds.
    pub open spec fn shaped(self, schema: SchemaView) -> bool {
        &&& self.fits(schema, false)
        &&& forall|i: int, j: int|
            0 <= i < self.slots.len() && 0 <= j < self.slots[i].len() ==> (#[trigger] self.slots[i][j]).conforms(
                schema,
            )
    }
}

} // verus!
