//! A cell of a table row.

use crate::catalog::{
    lemma_kind_table_cell, lemma_model_well_formed, model, schema, PARAGRAPH, TABLE_CELL,
    TABLE_CELL_PROPERTY,
};
use crate::decode::decode_element_spec;
use crate::document::paragraph::Paragraph;
use crate::encode::{element_tokens, encode_element};
use crate::entity::{items_of, node_of_one, nodes_of, nodes_of_spec, Element, Entity};
use crate::error::{DecodeError, WriteError};
use crate::formatting::table_cell_property::TableCellProperty;
use crate::laws::lemma_round_trip;
use crate::node::{Node, NodeView, Scalar};
use crate::schema::{
    Alternative, AlternativeView, Attribute, Cardinality, Content, Descriptor, DescriptorView,
    Name, NameView, Slot, SlotView,
};
use crate::token::Tok;
use crate::writer::Sink;
use vstd::prelude::*;

verus! {

/// What a table cell can hold.
#[derive(Debug, PartialEq)]
pub enum TableCellContent {
    Paragraph(Paragraph),
}

impl Entity for TableCellContent {
    open spec fn accepts(kind: nat) -> bool {
        kind == PARAGRAPH
    }

    open spec fn node(&self) -> NodeView {
        match self {
            TableCellContent::Paragraph(v) => v.node(),
        }
    }

    proof fn lemma_node_conforms(&self) {
        match self {
            TableCellContent::Paragraph(v) => {
                v.lemma_node_conforms();
            },
        }
    }

    fn to_node(&self) -> (n: Node) {
        match self {
            TableCellContent::Paragraph(v) => v.to_node(),
        }
    }

    fn from_node(n: &Node) -> (r: TableCellContent) {
        TableCellContent::Paragraph(Paragraph::from_node(n))
    }
}

impl From<Paragraph> for TableCellContent {
    fn from(v: Paragraph) -> (r: TableCellContent) {
        TableCellContent::Paragraph(v)
    }
}

impl vstd::std_specs::convert::FromSpecImpl<Paragraph> for TableCellContent {
    open spec fn obeys_from_spec() -> bool {
        true
    }

    open spec fn from_spec(v: Paragraph) -> TableCellContent {
        TableCellContent::Paragraph(v)
    }
}

/// A cell of a table row.
#[derive(Debug, PartialEq)]
pub struct TableCell {
    pub property: TableCellProperty,
    pub content: Vec<TableCellContent>,
}

impl TableCell {
    /// What the mapping knows of the element: its tag, its attributes and
    /// the slots of its children.
    pub open spec fn descriptor_spec() -> DescriptorView {
        DescriptorView {
            tag: NameView { prefix: "w"@, local: "tc"@ },
            attributes: Seq::empty(),
            slots: seq![
                SlotView {
                    cardinality: Cardinality::Default,
                    alternatives: seq![
                        AlternativeView {
                            tag: NameView { prefix: "w"@, local: "tcPr"@ },
                            kind: TABLE_CELL_PROPERTY as nat,
                        },
                    ],
                },
                SlotView {
                    cardinality: Cardinality::Many,
                    alternatives: seq![
                        AlternativeView {
                            tag: NameView { prefix: "w"@, local: "p"@ },
                            kind: PARAGRAPH as nat,
                        },
                    ],
                },
            ],
            content: Content::Children,
        }
    }

    /// What the mapping knows of the element.
    pub fn descriptor() -> (d: Descriptor)
        ensures
            d@ == Self::descriptor_spec(),
    {
        let attributes: Vec<Attribute> = Vec::new();
        let mut slots: Vec<Slot> = Vec::new();
        slots.push(Slot::one(Cardinality::Default, "w", "tcPr", TABLE_CELL_PROPERTY));
        let mut alternatives1: Vec<Alternative> = Vec::new();
        alternatives1.push(Alternative::new("w", "p", PARAGRAPH));
        slots.push(Slot::many(alternatives1));
        let d = Descriptor {
            tag: Name::new("w", "tc"),
            attributes,
            slots,
            content: Content::Children,
        };
        proof {
            let want = Self::descriptor_spec();
            assert(d@.attributes =~= want.attributes);
            assert(d@.slots[0].alternatives =~= want.slots[0].alternatives);
            assert(d@.slots[1].alternatives =~= want.slots[1].alternatives);
            assert(d@.slots =~= want.slots);
        }
        d
    }

    /// No two attributes of the element have the same name, and no two of its
    /// slots accept the same tag.
    pub proof fn lemma_descriptor_distinct()
        ensures
            Self::descriptor_spec().distinct(),
    {
        reveal_strlit("p");
        reveal_strlit("tcPr");
        reveal_strlit("w");
        assert("tcPr"@.len() != "p"@.len());
    }
}

impl Entity for TableCell {
    open spec fn accepts(kind: nat) -> bool {
        kind == TABLE_CELL
    }

    open spec fn node(&self) -> NodeView {
        NodeView {
            kind: TABLE_CELL as nat,
            attributes: Seq::empty(),
            slots: seq![seq![self.property.node()], nodes_of_spec(self.content@)],
            text: Seq::empty(),
        }
    }

    proof fn lemma_node_conforms(&self) {
        lemma_kind_table_cell();
        let dv = Self::descriptor_spec();
        let n = self.node();
        self.property.lemma_node_conforms();
        assert forall|j: int| 0 <= j < self.content@.len() implies (#[trigger] self.content@[j]).node().conforms(
            model(),
        ) && TableCellContent::accepts(self.content@[j].node().kind) by {
            self.content@[j].lemma_node_conforms();
        }
        assert(n.attributes_fit(model(), true));
        assert(n.slots_fit(model(), true));
        assert forall|i: int, j: int|
            0 <= i < n.slots.len() && 0 <= j < n.slots[i].len() implies dv.slots[i].accepts(
            (#[trigger] n.slots[i][j]).kind,
        ) by {
            if i == 0 {
                assert(TableCellProperty::accepts(n.slots[i][j].kind));
                assert(dv.slots[0].alternatives[0].kind == n.slots[i][j].kind);
            } else if i == 1 {
                assert(TableCellContent::accepts(n.slots[i][j].kind));
                assert(dv.slots[1].alternatives[0].kind == n.slots[i][j].kind);
            }
        }
        assert forall|i: int, j: int|
            0 <= i < n.slots.len() && 0 <= j < n.slots[i].len() implies (#[trigger] n.slots[i][j]).conforms(
            model(),
        ) by {
            if i == 0 {
                assert(n.slots[i][j].conforms(model()));
            } else if i == 1 {
                assert(n.slots[i][j] == self.content@[j].node());
            }
        }
        assert(n.children_fit(model()));
    }

    fn to_node(&self) -> (n: Node) {
        let attributes: Vec<Option<Scalar>> = Vec::new();
        let mut slots: Vec<Vec<Node>> = Vec::new();
        slots.push(node_of_one(&self.property));
        slots.push(nodes_of(&self.content));
        let n = Node { kind: TABLE_CELL, attributes, slots, text: String::new() };
        proof {
            lemma_kind_table_cell();
            let dv = Self::descriptor_spec();
            let want = self.node();
            assert(n@.attributes =~= want.attributes);
            assert(n@.slots[0] =~= want.slots[0]);
            assert(n@.slots[1] =~= want.slots[1]);
            assert(n@.slots =~= want.slots);
            assert(n@.text =~= want.text);
            self.lemma_node_conforms();
        }
        n
    }

    fn from_node(n: &Node) -> (r: TableCell) {
        proof {
            lemma_kind_table_cell();
            let dv = Self::descriptor_spec();
            assert(n@.slots[0].len() == n.slots@[0]@.len());
            assert(n@.slots[1].len() == n.slots@[1]@.len());
            assert forall|j: int| 0 <= j < n.slots[0]@.len() implies (#[trigger] n.slots[0]@[j])@.conforms(
                model(),
            ) && TableCellProperty::accepts(n.slots[0]@[j]@.kind) by {
                assert(n@.slots[0][j] == n.slots[0]@[j]@);
                assert(dv.slots[0].accepts(n@.slots[0][j].kind));
            }
            assert forall|j: int| 0 <= j < n.slots[1]@.len() implies (#[trigger] n.slots[1]@[j])@.conforms(
                model(),
            ) && TableCellContent::accepts(n.slots[1]@[j]@.kind) by {
                assert(n@.slots[1][j] == n.slots[1]@[j]@);
                assert(dv.slots[1].accepts(n@.slots[1][j].kind));
            }
        }
        let r = TableCell {
            property: TableCellProperty::from_node(&n.slots[0][0]),
            content: items_of(&n.slots[1]),
        };
        proof {
            let got = r.node();
            assert(got.attributes =~= n@.attributes);
            assert(got.slots[0] =~= n@.slots[0]);
            assert(got.slots[1] =~= n@.slots[1]);
            assert(got.slots =~= n@.slots);
            assert(got.text =~= n@.text);
        }
        r
    }
}

impl Element for TableCell {
    open spec fn tokens(&self) -> Seq<Tok> {
        element_tokens(model(), self.node())
    }

    open spec fn kind_spec() -> nat {
        TABLE_CELL as nat
    }

    proof fn lemma_kind() {
        lemma_kind_table_cell();
    }

    fn kind() -> (k: usize) {
        proof {
            lemma_kind_table_cell();
        }
        TABLE_CELL
    }

    fn to_writer(&self, sink: &mut Sink) -> (r: Result<(), WriteError>) {
        let schema = schema();
        let node = self.to_node();
        encode_element(&schema, &node, sink)
    }
}

impl TableCell {
    /// The element that the default value stands for.
    pub open spec fn initial() -> NodeView {
        NodeView {
            kind: TABLE_CELL as nat,
            attributes: Seq::empty(),
            slots: seq![seq![TableCellProperty::initial()], Seq::empty()],
            text: Seq::empty(),
        }
    }
}

impl Default for TableCell {
    fn default() -> (r: TableCell)
        ensures
            r.node() == Self::initial(),
    {
        let r = TableCell {
            property: TableCellProperty::default(),
            content: Vec::new(),
        };
        proof {
            let got = r.node();
            let want = Self::initial();
            assert(got.attributes =~= want.attributes);
            assert(got.slots[0] =~= want.slots[0]);
            assert(got.slots[1] =~= want.slots[1]);
            assert(got.slots =~= want.slots);
            assert(got.text =~= want.text);
        }
        r
    }
}

impl TableCell {
    /// The default stands for an element of the model, all of which is
    /// written.
    pub proof fn lemma_initial()
        ensures
            Self::initial().conforms(model()),
            Self::initial().written_back(model()),
            Self::initial().kind == TABLE_CELL,
    {
        lemma_kind_table_cell();
        let dv = Self::descriptor_spec();
        let n = Self::initial();
        TableCellProperty::lemma_initial();
        assert(n.attributes_fit(model(), true));
        assert(n.slots_fit(model(), true));
        assert forall|i: int, j: int|
            0 <= i < n.slots.len() && 0 <= j < n.slots[i].len() implies dv.slots[i].accepts(
            (#[trigger] n.slots[i][j]).kind,
        ) by {
            if i == 0 {
                assert(dv.slots[0].alternatives[0].kind == n.slots[i][j].kind);
            }
        }
        assert(n.children_fit(model()));
    }

    /// What is written of the default is read as the default.
    pub proof fn lemma_default_round_trip(rest: Seq<Tok>)
        ensures
            decode_element_spec(
                model(),
                TABLE_CELL as nat,
                element_tokens(model(), Self::initial()).skip(1) + rest,
            ) == Ok::<_, DecodeError>((Self::initial(), rest)),
    {
        Self::lemma_initial();
        lemma_model_well_formed();
        lemma_round_trip(model(), Self::initial(), rest);
    }
}

impl TableCell {
    /// The same with `value` as its `property`.
    pub fn property(self, value: TableCellProperty) -> (r: TableCell)
        ensures
            r == (TableCell { property: value, ..self }),
    {
        let mut r = self;
        r.property = value;
        r
    }
}

} // verus!
