//! A column of a table grid.

use crate::catalog::{lemma_kind_grid_column, lemma_model_well_formed, model, schema, GRID_COLUMN};
use crate::decode::decode_element_spec;
use crate::encode::{element_tokens, encode_element};
use crate::entity::{unsigned_of, Element, Entity};
use crate::error::{DecodeError, WriteError};
use crate::laws::lemma_round_trip;
use crate::node::{value_view, Node, NodeView, Scalar, ScalarView};
use crate::schema::{
    Attribute, AttributeView, Codec, Content, Descriptor, DescriptorView, Name, NameView, Slot,
};
use crate::token::Tok;
use crate::writer::Sink;
use vstd::prelude::*;

verus! {

/// A column of a table grid.
#[derive(Clone, Copy, Debug, PartialEq)]
pub struct GridColumn {
    pub width: usize,
}

impl GridColumn {
    /// What the mapping knows of the element: its tag, its attributes and
    /// the slots of its children.
    pub open spec fn descriptor_spec() -> DescriptorView {
        DescriptorView {
            tag: NameView { prefix: "w"@, local: "gridCol"@ },
            attributes: seq![
                AttributeView {
                    name: NameView { prefix: "w"@, local: "w"@ },
                    codec: Codec::Unsigned,
                    required: true,
                },
            ],
            slots: Seq::empty(),
            content: Content::Children,
        }
    }

    /// What the mapping knows of the element.
    pub fn descriptor() -> (d: Descriptor)
        ensures
            d@ == Self::descriptor_spec(),
    {
        let mut attributes: Vec<Attribute> = Vec::new();
        attributes.push(Attribute::new("w", "w", Codec::Unsigned, true));
        let slots: Vec<Slot> = Vec::new();
        let d = Descriptor {
            tag: Name::new("w", "gridCol"),
            attributes,
            slots,
            content: Content::Children,
        };
        proof {
            let want = Self::descriptor_spec();
            assert(d@.attributes =~= want.attributes);
            assert(d@.slots =~= want.slots);
        }
        d
    }

    /// No two attributes of the element have the same name, and no two of its
    /// slots accept the same tag.
    pub proof fn lemma_descriptor_distinct()
        ensures
            Self::descriptor_spec().distinct(),
    {
    }
}

impl Entity for GridColumn {
    open spec fn accepts(kind: nat) -> bool {
        kind == GRID_COLUMN
    }

    open spec fn node(&self) -> NodeView {
        NodeView {
            kind: GRID_COLUMN as nat,
            attributes: seq![
                Some(ScalarView::Unsigned(self.width)),
            ],
            slots: Seq::empty(),
            text: Seq::empty(),
        }
    }

    proof fn lemma_node_conforms(&self) {
        lemma_kind_grid_column();
        let dv = Self::descriptor_spec();
        let n = self.node();
        assert(n.attributes_fit(model(), true));
        assert(n.slots_fit(model(), true));
        assert(n.children_fit(model()));
    }

    fn to_node(&self) -> (n: Node) {
        let mut attributes: Vec<Option<Scalar>> = Vec::new();
        attributes.push(Some(Scalar::Unsigned(self.width)));
        let slots: Vec<Vec<Node>> = Vec::new();
        let n = Node { kind: GRID_COLUMN, attributes, slots, text: String::new() };
        proof {
            lemma_kind_grid_column();
            let dv = Self::descriptor_spec();
            let want = self.node();
            assert(n@.attributes =~= want.attributes);
            assert(n@.slots =~= want.slots);
            assert(n@.text =~= want.text);
            self.lemma_node_conforms();
        }
        n
    }

    fn from_node(n: &Node) -> (r: GridColumn) {
        proof {
            lemma_kind_grid_column();
            let dv = Self::descriptor_spec();
            assert(n@.attributes[0] == value_view(n.attributes@[0]));
        }
        let r = GridColumn {
            width: match unsigned_of(&n.attributes[0]) {
                Some(v) => v,
                None => 0,
            },
        };
        proof {
            let got = r.node();
            assert(got.attributes =~= n@.attributes);
            assert(got.slots =~= n@.slots);
            assert(got.text =~= n@.text);
        }
        r
    }
}

impl Element for GridColumn {
    open spec fn tokens(&self) -> Seq<Tok> {
        element_tokens(model(), self.node())
    }

    open spec fn kind_spec() -> nat {
        GRID_COLUMN as nat
    }

    proof fn lemma_kind() {
        lemma_kind_grid_column();
    }

    fn kind() -> (k: usize) {
        proof {
            lemma_kind_grid_column();
        }
        GRID_COLUMN
    }

    fn to_writer(&self, sink: &mut Sink) -> (r: Result<(), WriteError>) {
        let schema = schema();
        let node = self.to_node();
        encode_element(&schema, &node, sink)
    }
}

impl GridColumn {
    /// The element that the default value stands for.
    pub open spec fn initial() -> NodeView {
        NodeView {
            kind: GRID_COLUMN as nat,
            attributes: seq![Some(ScalarView::Unsigned(0))],
            slots: Seq::empty(),
            text: Seq::empty(),
        }
    }
}

impl Default for GridColumn {
    fn default() -> (r: GridColumn)
        ensures
            r.node() == Self::initial(),
    {
        let r = GridColumn {
            width: 0,
        };
        proof {
            let got = r.node();
            let want = Self::initial();
            assert(got.attributes =~= want.attributes);
            assert(got.slots =~= want.slots);
            assert(got.text =~= want.text);
        }
        r
    }
}

impl GridColumn {
    /// The default stands for an element of the model, all of which is
    /// written.
    pub proof fn lemma_initial()
        ensures
            Self::initial().conforms(model()),
            Self::initial().written_back(model()),
            Self::initial().kind == GRID_COLUMN,
    {
        lemma_kind_grid_column();
        let dv = Self::descriptor_spec();
        let n = Self::initial();
        assert(n.attributes_fit(model(), true));
        assert(n.slots_fit(model(), true));
        assert(n.children_fit(model()));
    }

    /// What is written of the default is read as the default.
    pub proof fn lemma_default_round_trip(rest: Seq<Tok>)
        ensures
            decode_element_spec(
                model(),
                GRID_COLUMN as nat,
                element_tokens(model(), Self::initial()).skip(1) + rest,
            ) == Ok::<_, DecodeError>((Self::initial(), rest)),
    {
        Self::lemma_initial();
        lemma_model_well_formed();
        lemma_round_trip(model(), Self::initial(), rest);
    }
}

impl From<usize> for GridColumn {
    fn from(width: usize) -> (r: GridColumn) {
        GridColumn { width }
    }
}

impl vstd::std_specs::convert::FromSpecImpl<usize> for GridColumn {
    open spec fn obeys_from_spec() -> bool {
        true
    }

    open spec fn from_spec(width: usize) -> GridColumn {
        GridColumn { width }
    }
}

} // verus!
