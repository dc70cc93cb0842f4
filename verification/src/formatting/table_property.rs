//! The properties of a table.

use crate::catalog::{
    lemma_kind_table_property, lemma_kind_table_style_id, lemma_model_well_formed, model, schema,
    TABLE_BORDERS, TABLE_INDENT, TABLE_JUSTIFICATION, TABLE_PROPERTY, TABLE_STYLE_ID, TABLE_WIDTH,
};
use crate::decode::decode_element_spec;
use crate::encode::{element_tokens, encode_element};
use crate::entity::{node_of_optional, optional_node, optional_of, text_of, Element, Entity};
use crate::error::{DecodeError, WriteError};
use crate::formatting::table_borders::TableBorders;
use crate::formatting::table_indent::TableIndent;
use crate::formatting::table_justification::TableJustification;
use crate::formatting::table_width::TableWidth;
use crate::laws::lemma_round_trip;
use crate::node::{value_view, Node, NodeView, Scalar, ScalarView};
use crate::schema::{
    AlternativeView, Attribute, AttributeView, Cardinality, Codec, Content, Descriptor,
    DescriptorView, Name, NameView, Slot, SlotView,
};
use crate::token::Tok;
use crate::writer::Sink;
use vstd::prelude::*;

verus! {

/// The identifier of a table style.
#[derive(Debug, PartialEq)]
pub struct TableStyleId {
    pub value: String,
}

impl TableStyleId {
    /// What the mapping knows of the element: its tag, its attributes and
    /// the slots of its children.
    pub open spec fn descriptor_spec() -> DescriptorView {
        DescriptorView {
            tag: NameView { prefix: "w"@, local: "tblStyle"@ },
            attributes: seq![
                AttributeView {
                    name: NameView { prefix: "w"@, local: "val"@ },
                    codec: Codec::Text,
                    required: true,
                },
            ],
            slots: Seq::empty(),
            content: Content::Children,
        }
    }

    /// What the mapping knows of the element.
    pub fn descriptor() -> (d: Descriptor)
        ensures
            d@ == Self::descriptor_spec(),
    {
        let mut attributes: Vec<Attribute> = Vec::new();
        attributes.push(Attribute::new("w", "val", Codec::Text, true));
        let slots: Vec<Slot> = Vec::new();
        let d = Descriptor {
            tag: Name::new("w", "tblStyle"),
            attributes,
            slots,
            content: Content::Children,
        };
        proof {
            let want = Self::descriptor_spec();
            assert(d@.attributes =~= want.attributes);
            assert(d@.slots =~= want.slots);
        }
        d
    }

    /// No two attributes of the element have the same name, and no two of its
    /// slots accept the same tag.
    pub proof fn lemma_descriptor_distinct()
        ensures
            Self::descriptor_spec().distinct(),
    {
    }
}

impl Entity for TableStyleId {
    open spec fn accepts(kind: nat) -> bool {
        kind == TABLE_STYLE_ID
    }

    open spec fn node(&self) -> NodeView {
        NodeView {
            kind: TABLE_STYLE_ID as nat,
            attributes: seq![
                Some(ScalarView::Text(self.value@)),
            ],
            slots: Seq::empty(),
            text: Seq::empty(),
        }
    }

    proof fn lemma_node_conforms(&self) {
        lemma_kind_table_style_id();
        let dv = Self::descriptor_spec();
        let n = self.node();
        assert(n.attributes_fit(model(), true));
        assert(n.slots_fit(model(), true));
        assert(n.children_fit(model()));
    }

    fn to_node(&self) -> (n: Node) {
        let mut attributes: Vec<Option<Scalar>> = Vec::new();
        attributes.push(Some(Scalar::Text(self.value.clone())));
        let slots: Vec<Vec<Node>> = Vec::new();
        let n = Node { kind: TABLE_STYLE_ID, attributes, slots, text: String::new() };
        proof {
            lemma_kind_table_style_id();
            let dv = Self::descriptor_spec();
            let want = self.node();
            assert(n@.attributes =~= want.attributes);
            assert(n@.slots =~= want.slots);
            assert(n@.text =~= want.text);
            self.lemma_node_conforms();
        }
        n
    }

    fn from_node(n: &Node) -> (r: TableStyleId) {
        proof {
            lemma_kind_table_style_id();
            let dv = Self::descriptor_spec();
            assert(n@.attributes[0] == value_view(n.attributes@[0]));
        }
        let r = TableStyleId {
            value: match text_of(&n.attributes[0]) {
                Some(v) => v,
                None => String::new(),
            },
        };
        proof {
            let got = r.node();
            assert(got.attributes =~= n@.attributes);
            assert(got.slots =~= n@.slots);
            assert(got.text =~= n@.text);
        }
        r
    }
}

impl Element for TableStyleId {
    open spec fn tokens(&self) -> Seq<Tok> {
        element_tokens(model(), self.node())
    }

    open spec fn kind_spec() -> nat {
        TABLE_STYLE_ID as nat
    }

    proof fn lemma_kind() {
        lemma_kind_table_style_id();
    }

    fn kind() -> (k: usize) {
        proof {
            lemma_kind_table_style_id();
        }
        TABLE_STYLE_ID
    }

    fn to_writer(&self, sink: &mut Sink) -> (r: Result<(), WriteError>) {
        let schema = schema();
        let node = self.to_node();
        encode_element(&schema, &node, sink)
    }
}

/// The properties of a table.
#[derive(Debug, PartialEq)]
pub struct TableProperty {
    pub style_id: Option<TableStyleId>,
    pub justification: Option<TableJustification>,
    pub borders: Option<TableBorders>,
    pub indent: Option<TableIndent>,
    pub width: Option<TableWidth>,
}

impl TableProperty {
    /// What the mapping knows of the element: its tag, its attributes and
    /// the slots of its children.
    pub open spec fn descriptor_spec() -> DescriptorView {
        DescriptorView {
            tag: NameView { prefix: "w"@, local: "tblPr"@ },
            attributes: Seq::empty(),
            slots: seq![
                SlotView {
                    cardinality: Cardinality::Optional,
                    alternatives: seq![
                        AlternativeView {
                            tag: NameView { prefix: "w"@, local: "tblStyle"@ },
                            kind: TABLE_STYLE_ID as nat,
                        },
                    ],
                },
                SlotView {
                    cardinality: Cardinality::Optional,
                    alternatives: seq![
                        AlternativeView {
                            tag: NameView { prefix: "w"@, local: "jc"@ },
                            kind: TABLE_JUSTIFICATION as nat,
                        },
                    ],
                },
                SlotView {
                    cardinality: Cardinality::Optional,
                    alternatives: seq![
                        AlternativeView {
                            tag: NameView { prefix: "w"@, local: "tblBorders"@ },
                            kind: TABLE_BORDERS as nat,
                        },
                    ],
                },
                SlotView {
                    cardinality: Cardinality::Optional,
                    alternatives: seq![
                        AlternativeView {
                            tag: NameView { prefix: "w"@, local: "tblInd"@ },
                            kind: TABLE_INDENT as nat,
                        },
                    ],
                },
                SlotView {
                    cardinality: Cardinality::Optional,
                    alternatives: seq![
                        AlternativeView {
                            tag: NameView { prefix: "w"@, local: "tblW"@ },
                            kind: TABLE_WIDTH as nat,
                        },
                    ],
                },
            ],
            content: Content::Children,
        }
    }

    /// What the mapping knows of the element.
    pub fn descriptor() -> (d: Descriptor)
        ensures
            d@ == Self::descriptor_spec(),
    {
        let attributes: Vec<Attribute> = Vec::new();
        let mut slots: Vec<Slot> = Vec::new();
        slots.push(Slot::one(Cardinality::Optional, "w", "tblStyle", TABLE_STYLE_ID));
        slots.push(Slot::one(Cardinality::Optional, "w", "jc", TABLE_JUSTIFICATION));
        slots.push(Slot::one(Cardinality::Optional, "w", "tblBorders", TABLE_BORDERS));
        slots.push(Slot::one(Cardinality::Optional, "w", "tblInd", TABLE_INDENT));
        slots.push(Slot::one(Cardinality::Optional, "w", "tblW", TABLE_WIDTH));
        let d = Descriptor {
            tag: Name::new("w", "tblPr"),
            attributes,
            slots,
            content: Content::Children,
        };
        proof {
            let want = Self::descriptor_spec();
            assert(d@.attributes =~= want.attributes);
            assert(d@.slots[0].alternatives =~= want.slots[0].alternatives);
            assert(d@.slots[1].alternatives =~= want.slots[1].alternatives);
            assert(d@.slots[2].alternatives =~= want.slots[2].alternatives);
            assert(d@.slots[3].alternatives =~= want.slots[3].alternatives);
            assert(d@.slots[4].alternatives =~= want.slots[4].alternatives);
            assert(d@.slots =~= want.slots);
        }
        d
    }

    /// No two attributes of the element have the same name, and no two of its
    /// slots accept the same tag.
    pub proof fn lemma_descriptor_distinct()
        ensures
            Self::descriptor_spec().distinct(),
    {
        reveal_strlit("jc");
        reveal_strlit("tblBorders");
        reveal_strlit("tblInd");
        reveal_strlit("tblStyle");
        reveal_strlit("tblW");
        reveal_strlit("w");
        assert("tblStyle"@.len() != "jc"@.len());
        assert("tblStyle"@.len() != "tblBorders"@.len());
        assert("tblStyle"@.len() != "tblInd"@.len());
        assert("tblStyle"@.len() != "tblW"@.len());
        assert("jc"@.len() != "tblBorders"@.len());
        assert("jc"@.len() != "tblInd"@.len());
        assert("jc"@.len() != "tblW"@.len());
        assert("tblBorders"@.len() != "tblInd"@.len());
        assert("tblBorders"@.len() != "tblW"@.len());
        assert("tblInd"@.len() != "tblW"@.len());
    }
}

impl Entity for TableProperty {
    open spec fn accepts(kind: nat) -> bool {
        kind == TABLE_PROPERTY
    }

    open spec fn node(&self) -> NodeView {
        NodeView {
            kind: TABLE_PROPERTY as nat,
            attributes: Seq::empty(),
            slots: seq![optional_node(self.style_id), optional_node(self.justification), optional_node(self.borders), optional_node(self.indent), optional_node(self.width)],
            text: Seq::empty(),
        }
    }

    proof fn lemma_node_conforms(&self) {
        lemma_kind_table_property();
        let dv = Self::descriptor_spec();
        let n = self.node();
        match self.style_id {
            Some(child) => {
                child.lemma_node_conforms();
            },
            None => {},
        }
        match self.justification {
            Some(child) => {
                child.lemma_node_conforms();
            },
            None => {},
        }
        match self.borders {
            Some(child) => {
                child.lemma_node_conforms();
            },
            None => {},
        }
        match self.indent {
            Some(child) => {
                child.lemma_node_conforms();
            },
            None => {},
        }
        match self.width {
            Some(child) => {
                child.lemma_node_conforms();
            },
            None => {},
        }
        assert(n.attributes_fit(model(), true));
        assert(n.slots_fit(model(), true));
        assert forall|i: int, j: int|
            0 <= i < n.slots.len() && 0 <= j < n.slots[i].len() implies dv.slots[i].accepts(
            (#[trigger] n.slots[i][j]).kind,
        ) by {
            if i == 0 {
                assert(TableStyleId::accepts(n.slots[i][j].kind));
                assert(dv.slots[0].alternatives[0].kind == n.slots[i][j].kind);
            } else if i == 1 {
                assert(TableJustification::accepts(n.slots[i][j].kind));
                assert(dv.slots[1].alternatives[0].kind == n.slots[i][j].kind);
            } else if i == 2 {
                assert(TableBorders::accepts(n.slots[i][j].kind));
                assert(dv.slots[2].alternatives[0].kind == n.slots[i][j].kind);
            } else if i == 3 {
                assert(TableIndent::accepts(n.slots[i][j].kind));
                assert(dv.slots[3].alternatives[0].kind == n.slots[i][j].kind);
            } else if i == 4 {
                assert(TableWidth::accepts(n.slots[i][j].kind));
                assert(dv.slots[4].alternatives[0].kind == n.slots[i][j].kind);
            }
        }
        assert forall|i: int, j: int|
            0 <= i < n.slots.len() && 0 <= j < n.slots[i].len() implies (#[trigger] n.slots[i][j]).conforms(
            model(),
        ) by {
            if i == 0 {
                assert(n.slots[i][j].conforms(model()));
            } else if i == 1 {
                assert(n.slots[i][j].conforms(model()));
            } else if i == 2 {
                assert(n.slots[i][j].conforms(model()));
            } else if i == 3 {
                assert(n.slots[i][j].conforms(model()));
            } else if i == 4 {
                assert(n.slots[i][j].conforms(model()));
            }
        }
        assert(n.children_fit(model()));
    }

    fn to_node(&self) -> (n: Node) {
        let attributes: Vec<Option<Scalar>> = Vec::new();
        let mut slots: Vec<Vec<Node>> = Vec::new();
        slots.push(node_of_optional(&self.style_id));
        slots.push(node_of_optional(&self.justification));
        slots.push(node_of_optional(&self.borders));
        slots.push(node_of_optional(&self.indent));
        slots.push(node_of_optional(&self.width));
        let n = Node { kind: TABLE_PROPERTY, attributes, slots, text: String::new() };
        proof {
            lemma_kind_table_property();
            let dv = Self::descriptor_spec();
            let want = self.node();
            assert(n@.attributes =~= want.attributes);
            assert(n@.slots[0] =~= want.slots[0]);
            assert(n@.slots[1] =~= want.slots[1]);
            assert(n@.slots[2] =~= want.slots[2]);
            assert(n@.slots[3] =~= want.slots[3]);
            assert(n@.slots[4] =~= want.slots[4]);
            assert(n@.slots =~= want.slots);
            assert(n@.text =~= want.text);
            self.lemma_node_conforms();
        }
        n
    }

    fn from_node(n: &Node) -> (r: TableProperty) {
        proof {
            lemma_kind_table_property();
            let dv = Self::descriptor_spec();
            assert(n@.slots[0].len() == n.slots@[0]@.len());
            assert(n@.slots[1].len() == n.slots@[1]@.len());
            assert(n@.slots[2].len() == n.slots@[2]@.len());
            assert(n@.slots[3].len() == n.slots@[3]@.len());
            assert(n@.slots[4].len() == n.slots@[4]@.len());
            assert forall|j: int| 0 <= j < n.slots[0]@.len() implies (#[trigger] n.slots[0]@[j])@.conforms(
                model(),
            ) && TableStyleId::accepts(n.slots[0]@[j]@.kind) by {
                assert(n@.slots[0][j] == n.slots[0]@[j]@);
                assert(dv.slots[0].accepts(n@.slots[0][j].kind));
            }
            assert forall|j: int| 0 <= j < n.slots[1]@.len() implies (#[trigger] n.slots[1]@[j])@.conforms(
                model(),
            ) && TableJustification::accepts(n.slots[1]@[j]@.kind) by {
                assert(n@.slots[1][j] == n.slots[1]@[j]@);
                assert(dv.slots[1].accepts(n@.slots[1][j].kind));
            }
            assert forall|j: int| 0 <= j < n.slots[2]@.len() implies (#[trigger] n.slots[2]@[j])@.conforms(
                model(),
            ) && TableBorders::accepts(n.slots[2]@[j]@.kind) by {
                assert(n@.slots[2][j] == n.slots[2]@[j]@);
                assert(dv.slots[2].accepts(n@.slots[2][j].kind));
            }
            assert forall|j: int| 0 <= j < n.slots[3]@.len() implies (#[trigger] n.slots[3]@[j])@.conforms(
                model(),
            ) && TableIndent::accepts(n.slots[3]@[j]@.kind) by {
                assert(n@.slots[3][j] == n.slots[3]@[j]@);
                assert(dv.slots[3].accepts(n@.slots[3][j].kind));
            }
            assert forall|j: int| 0 <= j < n.slots[4]@.len() implies (#[trigger] n.slots[4]@[j])@.conforms(
                model(),
            ) && TableWidth::accepts(n.slots[4]@[j]@.kind) by {
                assert(n@.slots[4][j] == n.slots[4]@[j]@);
                assert(dv.slots[4].accepts(n@.slots[4][j].kind));
            }
        }
        let r = TableProperty {
            style_id: optional_of(&n.slots[0]),
            justification: optional_of(&n.slots[1]),
            borders: optional_of(&n.slots[2]),
            indent: optional_of(&n.slots[3]),
            width: optional_of(&n.slots[4]),
        };
        proof {
            let got = r.node();
            assert(got.attributes =~= n@.attributes);
            assert(got.slots[0] =~= n@.slots[0]);
            assert(got.slots[1] =~= n@.slots[1]);
            assert(got.slots[2] =~= n@.slots[2]);
            assert(got.slots[3] =~= n@.slots[3]);
            assert(got.slots[4] =~= n@.slots[4]);
            assert(got.slots =~= n@.slots);
            assert(got.text =~= n@.text);
        }
        r
    }
}

impl Element for TableProperty {
    open spec fn tokens(&self) -> Seq<Tok> {
        element_tokens(model(), self.node())
    }

    open spec fn kind_spec() -> nat {
        TABLE_PROPERTY as nat
    }

    proof fn lemma_kind() {
        lemma_kind_table_property();
    }

    fn kind() -> (k: usize) {
        proof {
            lemma_kind_table_property();
        }
        TABLE_PROPERTY
    }

    fn to_writer(&self, sink: &mut Sink) -> (r: Result<(), WriteError>) {
        let schema = schema();
        let node = self.to_node();
        encode_element(&schema, &node, sink)
    }
}

impl TableProperty {
    /// The element that the default value stands for.
    pub open spec fn initial() -> NodeView {
        NodeView {
            kind: TABLE_PROPERTY as nat,
            attributes: Seq::empty(),
            slots: seq![Seq::empty(), Seq::empty(), Seq::empty(), Seq::empty(), Seq::empty()],
            text: Seq::empty(),
        }
    }
}

impl Default for TableProperty {
    fn default() -> (r: TableProperty)
        ensures
            r.node() == Self::initial(),
    {
        let r = TableProperty {
            style_id: None,
            justification: None,
            borders: None,
            indent: None,
            width: None,
        };
        proof {
            let got = r.node();
            let want = Self::initial();
            assert(got.attributes =~= want.attributes);
            assert(got.slots[0] =~= want.slots[0]);
            assert(got.slots[1] =~= want.slots[1]);
            assert(got.slots[2] =~= want.slots[2]);
            assert(got.slots[3] =~= want.slots[3]);
            assert(got.slots[4] =~= want.slots[4]);
            assert(got.slots =~= want.slots);
            assert(got.text =~= want.text);
        }
        r
    }
}

impl TableProperty {
    /// The default stands for an element of the model, all of which is
    /// written.
    pub proof fn lemma_initial()
        ensures
            Self::initial().conforms(model()),
            Self::initial().written_back(model()),
            Self::initial().kind == TABLE_PROPERTY,
    {
        lemma_kind_table_property();
        let dv = Self::descriptor_spec();
        let n = Self::initial();
        assert(n.attributes_fit(model(), true));
        assert(n.slots_fit(model(), true));
        assert forall|i: int, j: int|
            0 <= i < n.slots.len() && 0 <= j < n.slots[i].len() implies dv.slots[i].accepts(
            (#[trigger] n.slots[i][j]).kind,
        ) by {
        }
        assert(n.children_fit(model()));
    }

    /// What is written of the default is read as the default.
    pub proof fn lemma_default_round_trip(rest: Seq<Tok>)
        ensures
            decode_element_spec(
                model(),
                TABLE_PROPERTY as nat,
                element_tokens(model(), Self::initial()).skip(1) + rest,
            ) == Ok::<_, DecodeError>((Self::initial(), rest)),
    {
        Self::lemma_initial();
        lemma_model_well_formed();
        lemma_round_trip(model(), Self::initial(), rest);
    }
}

impl TableProperty {
    /// The same with `value` as its `style_id`.
    pub fn style_id(self, value: TableStyleId) -> (r: TableProperty)
        ensures
            r == (TableProperty { style_id: Some(value), ..self }),
    {
        let mut r = self;
        r.style_id = Some(value);
        r
    }

    /// The same with `value` as its `justification`.
    pub fn justification(self, value: TableJustification) -> (r: TableProperty)
        ensures
            r == (TableProperty { justification: Some(value), ..self }),
    {
        let mut r = self;
        r.justification = Some(value);
        r
    }

    /// The same with `value` as its `borders`.
    pub fn borders(self, value: TableBorders) -> (r: TableProperty)
        ensures
            r == (TableProperty { borders: Some(value), ..self }),
    {
        let mut r = self;
        r.borders = Some(value);
        r
    }

    /// The same with `value` as its `indent`.
    pub fn indent(self, value: TableIndent) -> (r: TableProperty)
        ensures
            r == (TableProperty { indent: Some(value), ..self }),
    {
        let mut r = self;
        r.indent = Some(value);
        r
    }

    /// The same with `value` as its `width`.
    pub fn width(self, value: TableWidth) -> (r: TableProperty)
        ensures
            r == (TableProperty { width: Some(value), ..self }),
    {
        let mut r = self;
        r.width = Some(value);
        r
    }
}

impl TableStyleId {
    /// The identifier `value`.
    pub fn from(value: &str) -> (r: TableStyleId)
        ensures
            r.value@ == value@,
    {
        TableStyleId { value: String::from_str(value) }
    }
}

} // verus!
