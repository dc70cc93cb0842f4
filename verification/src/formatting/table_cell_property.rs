//! The properties of a table cell.

use crate::catalog::{
    lemma_kind_table_cell_property, lemma_model_well_formed, model, schema, TABLE_CELL_PROPERTY,
};
use crate::decode::decode_element_spec;
use crate::encode::{element_tokens, encode_element};
use crate::entity::{Element, Entity};
use crate::error::{DecodeError, WriteError};
use crate::laws::lemma_round_trip;
use crate::node::{Node, NodeView, Scalar};
use crate::schema::{Attribute, Content, Descriptor, DescriptorView, Name, NameView, Slot};
use crate::token::Tok;
use crate::writer::Sink;
use vstd::prelude::*;

verus! {

/// The properties of a table cell.
#[derive(Debug, PartialEq)]
pub struct TableCellProperty {}

impl TableCellProperty {
    /// What the mapping knows of the element: its tag, its attributes and
    /// the slots of its children.
    pub open spec fn descriptor_spec() -> DescriptorView {
        DescriptorView {
            tag: NameView { prefix: "w"@, local: "tcPr"@ },
            attributes: Seq::empty(),
            slots: Seq::empty(),
            content: Content::Children,
        }
    }

    /// What the mapping knows of the element.
    pub fn descriptor() -> (d: Descriptor)
        ensures
            d@ == Self::descriptor_spec(),
    {
        let attributes: Vec<Attribute> = Vec::new();
        let slots: Vec<Slot> = Vec::new();
        let d = Descriptor {
            tag: Name::new("w", "tcPr"),
            attributes,
            slots,
            content: Content::Children,
        };
        proof {
            let want = Self::descriptor_spec();
            assert(d@.attributes =~= want.attributes);
            assert(d@.slots =~= want.slots);
        }
        d
    }

    /// No two attributes of the element have the same name, and no two of its
    /// slots accept the same tag.
    pub proof fn lemma_descriptor_distinct()
        ensures
            Self::descriptor_spec().distinct(),
    {
    }
}

impl Entity for TableCellProperty {
    open spec fn accepts(kind: nat) -> bool {
        kind == TABLE_CELL_PROPERTY
    }

    open spec fn node(&self) -> NodeView {
        NodeView {
            kind: TABLE_CELL_PROPERTY as nat,
            attributes: Seq::empty(),
            slots: Seq::empty(),
            text: Seq::empty(),
        }
    }

    proof fn lemma_node_conforms(&self) {
        lemma_kind_table_cell_property();
        let dv = Self::descriptor_spec();
        let n = self.node();
        assert(n.attributes_fit(model(), true));
        assert(n.slots_fit(model(), true));
        assert(n.children_fit(model()));
    }

    fn to_node(&self) -> (n: Node) {
        let attributes: Vec<Option<Scalar>> = Vec::new();
        let slots: Vec<Vec<Node>> = Vec::new();
        let n = Node { kind: TABLE_CELL_PROPERTY, attributes, slots, text: String::new() };
        proof {
            lemma_kind_table_cell_property();
            let dv = Self::descriptor_spec();
            let want = self.node();
            assert(n@.attributes =~= want.attributes);
            assert(n@.slots =~= want.slots);
            assert(n@.text =~= want.text);
            self.lemma_node_conforms();
        }
        n
    }

    fn from_node(n: &Node) -> (r: TableCellProperty) {
        proof {
            lemma_kind_table_cell_property();
            let dv = Self::descriptor_spec();
        }
        let r = TableCellProperty {};
        proof {
            let got = r.node();
            assert(got.attributes =~= n@.attributes);
            assert(got.slots =~= n@.slots);
            assert(got.text =~= n@.text);
        }
        r
    }
}

impl Element for TableCellProperty {
    open spec fn tokens(&self) -> Seq<Tok> {
        element_tokens(model(), self.node())
    }

    open spec fn kind_spec() -> nat {
        TABLE_CELL_PROPERTY as nat
    }

    proof fn lemma_kind() {
        lemma_kind_table_cell_property();
    }

    fn kind() -> (k: usize) {
        proof {
            lemma_kind_table_cell_property();
        }
        TABLE_CELL_PROPERTY
    }

    fn to_writer(&self, sink: &mut Sink) -> (r: Result<(), WriteError>) {
        let schema = schema();
        let node = self.to_node();
        encode_element(&schema, &node, sink)
    }
}

impl TableCellProperty {
    /// The element that the default value stands for.
    pub open spec fn initial() -> NodeView {
        NodeView {
            kind: TABLE_CELL_PROPERTY as nat,
            attributes: Seq::empty(),
            slots: Seq::empty(),
            text: Seq::empty(),
        }
    }
}

impl Default for TableCellProperty {
    fn default() -> (r: TableCellProperty)
        ensures
            r.node() == Self::initial(),
    {
        let r = TableCellProperty {};
        proof {
            let got = r.node();
            let want = Self::initial();
            assert(got.attributes =~= want.attributes);
            assert(got.slots =~= want.slots);
            assert(got.text =~= want.text);
        }
        r
    }
}

impl TableCellProperty {
    /// The default stands for an element of the model, all of which is
    /// written.
    pub proof fn lemma_initial()
        ensures
            Self::initial().conforms(model()),
            Self::initial().written_back(model()),
            Self::initial().kind == TABLE_CELL_PROPERTY,
    {
        lemma_kind_table_cell_property();
        let dv = Self::descriptor_spec();
        let n = Self::initial();
        assert(n.attributes_fit(model(), true));
        assert(n.slots_fit(model(), true));
        assert(n.children_fit(model()));
    }

    /// What is written of the default is read as the default.
    pub proof fn lemma_default_round_trip(rest: Seq<Tok>)
        ensures
            decode_element_spec(
                model(),
                TABLE_CELL_PROPERTY as nat,
                element_tokens(model(), Self::initial()).skip(1) + rest,
            ) == Ok::<_, DecodeError>((Self::initial(), rest)),
    {
        Self::lemma_initial();
        lemma_model_well_formed();
        lemma_round_trip(model(), Self::initial(), rest);
    }
}

} // verus!
