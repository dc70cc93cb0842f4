//! The properties of a paragraph. They apply to all that the paragraph holds.

use crate::catalog::{
    lemma_kind_outline_level, lemma_kind_paragraph_property, lemma_kind_paragraph_style_id,
    lemma_kind_section_property, lemma_model_well_formed, model, schema, BORDERS, JUSTIFICATION,
    NUMBERING_PROPERTY, OUTLINE_LEVEL, PARAGRAPH_PROPERTY, PARAGRAPH_STYLE_ID, SECTION_PROPERTY,
};
use crate::decode::decode_element_spec;
use crate::encode::{element_tokens, encode_element};
use crate::entity::{
    node_of_optional, optional_node, optional_of, text_of, unsigned_of, Element, Entity,
};
use crate::error::{DecodeError, WriteError};
use crate::formatting::borders::Borders;
use crate::formatting::justification::Justification;
use crate::formatting::numbering_property::NumberingProperty;
use crate::laws::lemma_round_trip;
use crate::node::{value_view, Node, NodeView, Scalar, ScalarView};
use crate::schema::{
    AlternativeView, Attribute, AttributeView, Cardinality, Codec, Content, Descriptor,
    DescriptorView, Name, NameView, Slot, SlotView,
};
use crate::token::Tok;
use crate::writer::Sink;
use vstd::prelude::*;

verus! {

/// The outline level of a paragraph.
#[derive(Clone, Copy, Debug, PartialEq)]
pub struct OutlineLevel {
    pub value: usize,
}

impl OutlineLevel {
    /// What the mapping knows of the element: its tag, its attributes and
    /// the slots of its children.
    pub open spec fn descriptor_spec() -> DescriptorView {
        DescriptorView {
            tag: NameView { prefix: "w"@, local: "outlineLvl"@ },
            attributes: seq![
                AttributeView {
                    name: NameView { prefix: "w"@, local: "val"@ },
                    codec: Codec::Unsigned,
                    required: true,
                },
            ],
            slots: Seq::empty(),
            content: Content::Children,
        }
    }

    /// What the mapping knows of the element.
    pub fn descriptor() -> (d: Descriptor)
        ensures
            d@ == Self::descriptor_spec(),
    {
        let mut attributes: Vec<Attribute> = Vec::new();
        attributes.push(Attribute::new("w", "val", Codec::Unsigned, true));
        let slots: Vec<Slot> = Vec::new();
        let d = Descriptor {
            tag: Name::new("w", "outlineLvl"),
            attributes,
            slots,
            content: Content::Children,
        };
        proof {
            let want = Self::descriptor_spec();
            assert(d@.attributes =~= want.attributes);
            assert(d@.slots =~= want.slots);
        }
        d
    }

    /// No two attributes of the element have the same name, and no two of its
    /// slots accept the same tag.
    pub proof fn lemma_descriptor_distinct()
        ensures
            Self::descriptor_spec().distinct(),
    {
    }
}

impl Entity for OutlineLevel {
    open spec fn accepts(kind: nat) -> bool {
        kind == OUTLINE_LEVEL
    }

    open spec fn node(&self) -> NodeView {
        NodeView {
            kind: OUTLINE_LEVEL as nat,
            attributes: seq![
                Some(ScalarView::Unsigned(self.value)),
            ],
            slots: Seq::empty(),
            text: Seq::empty(),
        }
    }

    proof fn lemma_node_conforms(&self) {
        lemma_kind_outline_level();
        let dv = Self::descriptor_spec();
        let n = self.node();
        assert(n.attributes_fit(model(), true));
        assert(n.slots_fit(model(), true));
        assert(n.children_fit(model()));
    }

    fn to_node(&self) -> (n: Node) {
        let mut attributes: Vec<Option<Scalar>> = Vec::new();
        attributes.push(Some(Scalar::Unsigned(self.value)));
        let slots: Vec<Vec<Node>> = Vec::new();
        let n = Node { kind: OUTLINE_LEVEL, attributes, slots, text: String::new() };
        proof {
            lemma_kind_outline_level();
            let dv = Self::descriptor_spec();
            let want = self.node();
            assert(n@.attributes =~= want.attributes);
            assert(n@.slots =~= want.slots);
            assert(n@.text =~= want.text);
            self.lemma_node_conforms();
        }
        n
    }

    fn from_node(n: &Node) -> (r: OutlineLevel) {
        proof {
            lemma_kind_outline_level();
            let dv = Self::descriptor_spec();
            assert(n@.attributes[0] == value_view(n.attributes@[0]));
        }
        let r = OutlineLevel {
            value: match unsigned_of(&n.attributes[0]) {
                Some(v) => v,
                None => 0,
            },
        };
        proof {
            let got = r.node();
            assert(got.attributes =~= n@.attributes);
            assert(got.slots =~= n@.slots);
            assert(got.text =~= n@.text);
        }
        r
    }
}

impl Element for OutlineLevel {
    open spec fn tokens(&self) -> Seq<Tok> {
        element_tokens(model(), self.node())
    }

    open spec fn kind_spec() -> nat {
        OUTLINE_LEVEL as nat
    }

    proof fn lemma_kind() {
        lemma_kind_outline_level();
    }

    fn kind() -> (k: usize) {
        proof {
            lemma_kind_outline_level();
        }
        OUTLINE_LEVEL
    }

    fn to_writer(&self, sink: &mut Sink) -> (r: Result<(), WriteError>) {
        let schema = schema();
        let node = self.to_node();
        encode_element(&schema, &node, sink)
    }
}

/// The properties of a section.
#[derive(Debug, PartialEq)]
pub struct SectionProperty {}

impl SectionProperty {
    /// What the mapping knows of the element: its tag, its attributes and
    /// the slots of its children.
    pub open spec fn descriptor_spec() -> DescriptorView {
        DescriptorView {
            tag: NameView { prefix: "w"@, local: "sectPr"@ },
            attributes: Seq::empty(),
            slots: Seq::empty(),
            content: Content::Children,
        }
    }

    /// What the mapping knows of the element.
    pub fn descriptor() -> (d: Descriptor)
        ensures
            d@ == Self::descriptor_spec(),
    {
        let attributes: Vec<Attribute> = Vec::new();
        let slots: Vec<Slot> = Vec::new();
        let d = Descriptor {
            tag: Name::new("w", "sectPr"),
            attributes,
            slots,
            content: Content::Children,
        };
        proof {
            let want = Self::descriptor_spec();
            assert(d@.attributes =~= want.attributes);
            assert(d@.slots =~= want.slots);
        }
        d
    }

    /// No two attributes of the element have the same name, and no two of its
    /// slots accept the same tag.
    pub proof fn lemma_descriptor_distinct()
        ensures
            Self::descriptor_spec().distinct(),
    {
    }
}

impl Entity for SectionProperty {
    open spec fn accepts(kind: nat) -> bool {
        kind == SECTION_PROPERTY
    }

    open spec fn node(&self) -> NodeView {
        NodeView {
            kind: SECTION_PROPERTY as nat,
            attributes: Seq::empty(),
            slots: Seq::empty(),
            text: Seq::empty(),
        }
    }

    proof fn lemma_node_conforms(&self) {
        lemma_kind_section_property();
        let dv = Self::descriptor_spec();
        let n = self.node();
        assert(n.attributes_fit(model(), true));
        assert(n.slots_fit(model(), true));
        assert(n.children_fit(model()));
    }

    fn to_node(&self) -> (n: Node) {
        let attributes: Vec<Option<Scalar>> = Vec::new();
        let slots: Vec<Vec<Node>> = Vec::new();
        let n = Node { kind: SECTION_PROPERTY, attributes, slots, text: String::new() };
        proof {
            lemma_kind_section_property();
            let dv = Self::descriptor_spec();
            let want = self.node();
            assert(n@.attributes =~= want.attributes);
            assert(n@.slots =~= want.slots);
            assert(n@.text =~= want.text);
            self.lemma_node_conforms();
        }
        n
    }

    fn from_node(n: &Node) -> (r: SectionProperty) {
        proof {
            lemma_kind_section_property();
            let dv = Self::descriptor_spec();
        }
        let r = SectionProperty {};
        proof {
            let got = r.node();
            assert(got.attributes =~= n@.attributes);
            assert(got.slots =~= n@.slots);
            assert(got.text =~= n@.text);
        }
        r
    }
}

impl Element for SectionProperty {
    open spec fn tokens(&self) -> Seq<Tok> {
        element_tokens(model(), self.node())
    }

    open spec fn kind_spec() -> nat {
        SECTION_PROPERTY as nat
    }

    proof fn lemma_kind() {
        lemma_kind_section_property();
    }

    fn kind() -> (k: usize) {
        proof {
            lemma_kind_section_property();
        }
        SECTION_PROPERTY
    }

    fn to_writer(&self, sink: &mut Sink) -> (r: Result<(), WriteError>) {
        let schema = schema();
        let node = self.to_node();
        encode_element(&schema, &node, sink)
    }
}

impl SectionProperty {
    /// The element that the default value stands for.
    pub open spec fn initial() -> NodeView {
        NodeView {
            kind: SECTION_PROPERTY as nat,
            attributes: Seq::empty(),
            slots: Seq::empty(),
            text: Seq::empty(),
        }
    }
}

impl Default for SectionProperty {
    fn default() -> (r: SectionProperty)
        ensures
            r.node() == Self::initial(),
    {
        let r = SectionProperty {};
        proof {
            let got = r.node();
            let want = Self::initial();
            assert(got.attributes =~= want.attributes);
            assert(got.slots =~= want.slots);
            assert(got.text =~= want.text);
        }
        r
    }
}

impl SectionProperty {
    /// The default stands for an element of the model, all of which is
    /// written.
    pub proof fn lemma_initial()
        ensures
            Self::initial().conforms(model()),
            Self::initial().written_back(model()),
            Self::initial().kind == SECTION_PROPERTY,
    {
        lemma_kind_section_property();
        let dv = Self::descriptor_spec();
        let n = Self::initial();
        assert(n.attributes_fit(model(), true));
        assert(n.slots_fit(model(), true));
        assert(n.children_fit(model()));
    }

    /// What is written of the default is read as the default.
    pub proof fn lemma_default_round_trip(rest: Seq<Tok>)
        ensures
            decode_element_spec(
                model(),
                SECTION_PROPERTY as nat,
                element_tokens(model(), Self::initial()).skip(1) + rest,
            ) == Ok::<_, DecodeError>((Self::initial(), rest)),
    {
        Self::lemma_initial();
        lemma_model_well_formed();
        lemma_round_trip(model(), Self::initial(), rest);
    }
}

/// The identifier of a paragraph style.
#[derive(Debug, PartialEq)]
pub struct ParagraphStyleId {
    pub value: String,
}

impl ParagraphStyleId {
    /// What the mapping knows of the element: its tag, its attributes and
    /// the slots of its children.
    pub open spec fn descriptor_spec() -> DescriptorView {
        DescriptorView {
            tag: NameView { prefix: "w"@, local: "pStyle"@ },
            attributes: seq![
                AttributeView {
                    name: NameView { prefix: "w"@, local: "val"@ },
                    codec: Codec::Text,
                    required: true,
                },
            ],
            slots: Seq::empty(),
            content: Content::Children,
        }
    }

    /// What the mapping knows of the element.
    pub fn descriptor() -> (d: Descriptor)
        ensures
            d@ == Self::descriptor_spec(),
    {
        let mut attributes: Vec<Attribute> = Vec::new();
        attributes.push(Attribute::new("w", "val", Codec::Text, true));
        let slots: Vec<Slot> = Vec::new();
        let d = Descriptor {
            tag: Name::new("w", "pStyle"),
            attributes,
            slots,
            content: Content::Children,
        };
        proof {
            let want = Self::descriptor_spec();
            assert(d@.attributes =~= want.attributes);
            assert(d@.slots =~= want.slots);
        }
        d
    }

    /// No two attributes of the element have the same name, and no two of its
    /// slots accept the same tag.
    pub proof fn lemma_descriptor_distinct()
        ensures
            Self::descriptor_spec().distinct(),
    {
    }
}

impl Entity for ParagraphStyleId {
    open spec fn accepts(kind: nat) -> bool {
        kind == PARAGRAPH_STYLE_ID
    }

    open spec fn node(&self) -> NodeView {
        NodeView {
            kind: PARAGRAPH_STYLE_ID as nat,
            attributes: seq![
                Some(ScalarView::Text(self.value@)),
            ],
            slots: Seq::empty(),
            text: Seq::empty(),
        }
    }

    proof fn lemma_node_conforms(&self) {
        lemma_kind_paragraph_style_id();
        let dv = Self::descriptor_spec();
        let n = self.node();
        assert(n.attributes_fit(model(), true));
        assert(n.slots_fit(model(), true));
        assert(n.children_fit(model()));
    }

    fn to_node(&self) -> (n: Node) {
        let mut attributes: Vec<Option<Scalar>> = Vec::new();
        attributes.push(Some(Scalar::Text(self.value.clone())));
        let slots: Vec<Vec<Node>> = Vec::new();
        let n = Node { kind: PARAGRAPH_STYLE_ID, attributes, slots, text: String::new() };
        proof {
            lemma_kind_paragraph_style_id();
            let dv = Self::descriptor_spec();
            let want = self.node();
            assert(n@.attributes =~= want.attributes);
            assert(n@.slots =~= want.slots);
            assert(n@.text =~= want.text);
            self.lemma_node_conforms();
        }
        n
    }

    fn from_node(n: &Node) -> (r: ParagraphStyleId) {
        proof {
            lemma_kind_paragraph_style_id();
            let dv = Self::descriptor_spec();
            assert(n@.attributes[0] == value_view(n.attributes@[0]));
        }
        let r = ParagraphStyleId {
            value: match text_of(&n.attributes[0]) {
                Some(v) => v,
                None => String::new(),
            },
        };
        proof {
            let got = r.node();
            assert(got.attributes =~= n@.attributes);
            assert(got.slots =~= n@.slots);
            assert(got.text =~= n@.text);
        }
        r
    }
}

impl Element for ParagraphStyleId {
    open spec fn tokens(&self) -> Seq<Tok> {
        element_tokens(model(), self.node())
    }

    open spec fn kind_spec() -> nat {
        PARAGRAPH_STYLE_ID as nat
    }

    proof fn lemma_kind() {
        lemma_kind_paragraph_style_id();
    }

    fn kind() -> (k: usize) {
        proof {
            lemma_kind_paragraph_style_id();
        }
        PARAGRAPH_STYLE_ID
    }

    fn to_writer(&self, sink: &mut Sink) -> (r: Result<(), WriteError>) {
        let schema = schema();
        let node = self.to_node();
        encode_element(&schema, &node, sink)
    }
}

/// The properties of a paragraph. They apply to all that the paragraph holds.
#[derive(Debug, PartialEq)]
pub struct ParagraphProperty {
    /// the identifier of the paragraph style
    pub style_id: Option<ParagraphStyleId>,
    /// the alignment
    pub justification: Option<Justification>,
    /// the borders
    pub border: Option<Borders>,
    /// that the paragraph is numbered
    pub numbering: Option<NumberingProperty>,
    /// the outline level
    pub outline_level: Option<OutlineLevel>,
    /// the properties of the section
    pub section: Option<SectionProperty>,
}

impl ParagraphProperty {
    /// What the mapping knows of the element: its tag, its attributes and
    /// the slots of its children.
    pub open spec fn descriptor_spec() -> DescriptorView {
        DescriptorView {
            tag: NameView { prefix: "w"@, local: "pPr"@ },
            attributes: Seq::empty(),
            slots: seq![
                SlotView {
                    cardinality: Cardinality::Optional,
                    alternatives: seq![
                        AlternativeView {
                            tag: NameView { prefix: "w"@, local: "pStyle"@ },
                            kind: PARAGRAPH_STYLE_ID as nat,
                        },
                    ],
                },
                SlotView {
                    cardinality: Cardinality::Optional,
                    alternatives: seq![
                        AlternativeView {
                            tag: NameView { prefix: "w"@, local: "jc"@ },
                            kind: JUSTIFICATION as nat,
                        },
                    ],
                },
                SlotView {
                    cardinality: Cardinality::Optional,
                    alternatives: seq![
                        AlternativeView {
                            tag: NameView { prefix: "w"@, local: "pBdr"@ },
                            kind: BORDERS as nat,
                        },
                    ],
                },
                SlotView {
                    cardinality: Cardinality::Optional,
                    alternatives: seq![
                        AlternativeView {
                            tag: NameView { prefix: "w"@, local: "numPr"@ },
                            kind: NUMBERING_PROPERTY as nat,
                        },
                    ],
                },
                SlotView {
                    cardinality: Cardinality::Optional,
                    alternatives: seq![
                        AlternativeView {
                            tag: NameView { prefix: "w"@, local: "outlineLvl"@ },
                            kind: OUTLINE_LEVEL as nat,
                        },
                    ],
                },
                SlotView {
                    cardinality: Cardinality::Optional,
                    alternatives: seq![
                        AlternativeView {
                            tag: NameView { prefix: "w"@, local: "sectPr"@ },
                            kind: SECTION_PROPERTY as nat,
                        },
                    ],
                },
            ],
            content: Content::Children,
        }
    }

    /// What the mapping knows of the element.
    pub fn descriptor() -> (d: Descriptor)
        ensures
            d@ == Self::descriptor_spec(),
    {
        let attributes: Vec<Attribute> = Vec::new();
        let mut slots: Vec<Slot> = Vec::new();
        slots.push(Slot::one(Cardinality::Optional, "w", "pStyle", PARAGRAPH_STYLE_ID));
        slots.push(Slot::one(Cardinality::Optional, "w", "jc", JUSTIFICATION));
        slots.push(Slot::one(Cardinality::Optional, "w", "pBdr", BORDERS));
        slots.push(Slot::one(Cardinality::Optional, "w", "numPr", NUMBERING_PROPERTY));
        slots.push(Slot::one(Cardinality::Optional, "w", "outlineLvl", OUTLINE_LEVEL));
        slots.push(Slot::one(Cardinality::Optional, "w", "sectPr", SECTION_PROPERTY));
        let d = Descriptor {
            tag: Name::new("w", "pPr"),
            attributes,
            slots,
            content: Content::Children,
        };
        proof {
            let want = Self::descriptor_spec();
            assert(d@.attributes =~= want.attributes);
            assert(d@.slots[0].alternatives =~= want.slots[0].alternatives);
            assert(d@.slots[1].alternatives =~= want.slots[1].alternatives);
            assert(d@.slots[2].alternatives =~= want.slots[2].alternatives);
            assert(d@.slots[3].alternatives =~= want.slots[3].alternatives);
            assert(d@.slots[4].alternatives =~= want.slots[4].alternatives);
            assert(d@.slots[5].alternatives =~= want.slots[5].alternatives);
            assert(d@.slots =~= want.slots);
        }
        d
    }

    /// No two attributes of the element have the same name, and no two of its
    /// slots accept the same tag.
    pub proof fn lemma_descriptor_distinct()
        ensures
            Self::descriptor_spec().distinct(),
    {
        reveal_strlit("jc");
        reveal_strlit("numPr");
        reveal_strlit("outlineLvl");
        reveal_strlit("pBdr");
        reveal_strlit("pStyle");
        reveal_strlit("sectPr");
        reveal_strlit("w");
        assert("pStyle"@.len() != "jc"@.len());
        assert("pStyle"@.len() != "pBdr"@.len());
        assert("pStyle"@.len() != "numPr"@.len());
        assert("pStyle"@.len() != "outlineLvl"@.len());
        assert("pStyle"@[0] != "sectPr"@[0]);
        assert("jc"@.len() != "pBdr"@.len());
        assert("jc"@.len() != "numPr"@.len());
        assert("jc"@.len() != "outlineLvl"@.len());
        assert("jc"@.len() != "sectPr"@.len());
        assert("pBdr"@.len() != "numPr"@.len());
        assert("pBdr"@.len() != "outlineLvl"@.len());
        assert("pBdr"@.len() != "sectPr"@.len());
        assert("numPr"@.len() != "outlineLvl"@.len());
        assert("numPr"@.len() != "sectPr"@.len());
        assert("outlineLvl"@.len() != "sectPr"@.len());
    }
}

impl Entity for ParagraphProperty {
    open spec fn accepts(kind: nat) -> bool {
        kind == PARAGRAPH_PROPERTY
    }

    open spec fn node(&self) -> NodeView {
        NodeView {
            kind: PARAGRAPH_PROPERTY as nat,
            attributes: Seq::empty(),
            slots: seq![optional_node(self.style_id), optional_node(self.justification), optional_node(self.border), optional_node(self.numbering), optional_node(self.outline_level), optional_node(self.section)],
            text: Seq::empty(),
        }
    }

    proof fn lemma_node_conforms(&self) {
        lemma_kind_paragraph_property();
        let dv = Self::descriptor_spec();
        let n = self.node();
        match self.style_id {
            Some(child) => {
                child.lemma_node_conforms();
            },
            None => {},
        }
        match self.justification {
            Some(child) => {
                child.lemma_node_conforms();
            },
            None => {},
        }
        match self.border {
            Some(child) => {
                child.lemma_node_conforms();
            },
            None => {},
        }
        match self.numbering {
            Some(child) => {
                child.lemma_node_conforms();
            },
            None => {},
        }
        match self.outline_level {
            Some(child) => {
                child.lemma_node_conforms();
            },
            None => {},
        }
        match self.section {
            Some(child) => {
                child.lemma_node_conforms();
            },
            None => {},
        }
        assert(n.attributes_fit(model(), true));
        assert(n.slots_fit(model(), true));
        assert forall|i: int, j: int|
            0 <= i < n.slots.len() && 0 <= j < n.slots[i].len() implies dv.slots[i].accepts(
            (#[trigger] n.slots[i][j]).kind,
        ) by {
            if i == 0 {
                assert(ParagraphStyleId::accepts(n.slots[i][j].kind));
                assert(dv.slots[0].alternatives[0].kind == n.slots[i][j].kind);
            } else if i == 1 {
                assert(Justification::accepts(n.slots[i][j].kind));
                assert(dv.slots[1].alternatives[0].kind == n.slots[i][j].kind);
            } else if i == 2 {
                assert(Borders::accepts(n.slots[i][j].kind));
                assert(dv.slots[2].alternatives[0].kind == n.slots[i][j].kind);
            } else if i == 3 {
                assert(NumberingProperty::accepts(n.slots[i][j].kind));
                assert(dv.slots[3].alternatives[0].kind == n.slots[i][j].kind);
            } else if i == 4 {
                assert(OutlineLevel::accepts(n.slots[i][j].kind));
                assert(dv.slots[4].alternatives[0].kind == n.slots[i][j].kind);
            } else if i == 5 {
                assert(SectionProperty::accepts(n.slots[i][j].kind));
                assert(dv.slots[5].alternatives[0].kind == n.slots[i][j].kind);
            }
        }
        assert forall|i: int, j: int|
            0 <= i < n.slots.len() && 0 <= j < n.slots[i].len() implies (#[trigger] n.slots[i][j]).conforms(
            model(),
        ) by {
            if i == 0 {
                assert(n.slots[i][j].conforms(model()));
            } else if i == 1 {
                assert(n.slots[i][j].conforms(model()));
            } else if i == 2 {
                assert(n.slots[i][j].conforms(model()));
            } else if i == 3 {
                assert(n.slots[i][j].conforms(model()));
            } else if i == 4 {
                assert(n.slots[i][j].conforms(model()));
            } else if i == 5 {
                assert(n.slots[i][j].conforms(model()));
            }
        }
        assert(n.children_fit(model()));
    }

    fn to_node(&self) -> (n: Node) {
        let attributes: Vec<Option<Scalar>> = Vec::new();
        let mut slots: Vec<Vec<Node>> = Vec::new();
        slots.push(node_of_optional(&self.style_id));
        slots.push(node_of_optional(&self.justification));
        slots.push(node_of_optional(&self.border));
        slots.push(node_of_optional(&self.numbering));
        slots.push(node_of_optional(&self.outline_level));
        slots.push(node_of_optional(&self.section));
        let n = Node { kind: PARAGRAPH_PROPERTY, attributes, slots, text: String::new() };
        proof {
            lemma_kind_paragraph_property();
            let dv = Self::descriptor_spec();
            let want = self.node();
            assert(n@.attributes =~= want.attributes);
            assert(n@.slots[0] =~= want.slots[0]);
            assert(n@.slots[1] =~= want.slots[1]);
            assert(n@.slots[2] =~= want.slots[2]);
            assert(n@.slots[3] =~= want.slots[3]);
            assert(n@.slots[4] =~= want.slots[4]);
            assert(n@.slots[5] =~= want.slots[5]);
            assert(n@.slots =~= want.slots);
            assert(n@.text =~= want.text);
            self.lemma_node_conforms();
        }
        n
    }

    fn from_node(n: &Node) -> (r: ParagraphProperty) {
        proof {
            lemma_kind_paragraph_property();
            let dv = Self::descriptor_spec();
            assert(n@.slots[0].len() == n.slots@[0]@.len());
            assert(n@.slots[1].len() == n.slots@[1]@.len());
            assert(n@.slots[2].len() == n.slots@[2]@.len());
            assert(n@.slots[3].len() == n.slots@[3]@.len());
            assert(n@.slots[4].len() == n.slots@[4]@.len());
            assert(n@.slots[5].len() == n.slots@[5]@.len());
            assert forall|j: int| 0 <= j < n.slots[0]@.len() implies (#[trigger] n.slots[0]@[j])@.conforms(
                model(),
            ) && ParagraphStyleId::accepts(n.slots[0]@[j]@.kind) by {
                assert(n@.slots[0][j] == n.slots[0]@[j]@);
                assert(dv.slots[0].accepts(n@.slots[0][j].kind));
            }
            assert forall|j: int| 0 <= j < n.slots[1]@.len() implies (#[trigger] n.slots[1]@[j])@.conforms(
                model(),
            ) && Justification::accepts(n.slots[1]@[j]@.kind) by {
                assert(n@.slots[1][j] == n.slots[1]@[j]@);
                assert(dv.slots[1].accepts(n@.slots[1][j].kind));
            }
            assert forall|j: int| 0 <= j < n.slots[2]@.len() implies (#[trigger] n.slots[2]@[j])@.conforms(
                model(),
            ) && Borders::accepts(n.slots[2]@[j]@.kind) by {
                assert(n@.slots[2][j] == n.slots[2]@[j]@);
                assert(dv.slots[2].accepts(n@.slots[2][j].kind));
            }
            assert forall|j: int| 0 <= j < n.slots[3]@.len() implies (#[trigger] n.slots[3]@[j])@.conforms(
                model(),
            ) && NumberingProperty::accepts(n.slots[3]@[j]@.kind) by {
                assert(n@.slots[3][j] == n.slots[3]@[j]@);
                assert(dv.slots[3].accepts(n@.slots[3][j].kind));
            }
            assert forall|j: int| 0 <= j < n.slots[4]@.len() implies (#[trigger] n.slots[4]@[j])@.conforms(
                model(),
            ) && OutlineLevel::accepts(n.slots[4]@[j]@.kind) by {
                assert(n@.slots[4][j] == n.slots[4]@[j]@);
                assert(dv.slots[4].accepts(n@.slots[4][j].kind));
            }
            assert forall|j: int| 0 <= j < n.slots[5]@.len() implies (#[trigger] n.slots[5]@[j])@.conforms(
                model(),
            ) && SectionProperty::accepts(n.slots[5]@[j]@.kind) by {
                assert(n@.slots[5][j] == n.slots[5]@[j]@);
                assert(dv.slots[5].accepts(n@.slots[5][j].kind));
            }
        }
        let r = ParagraphProperty {
            style_id: optional_of(&n.slots[0]),
            justification: optional_of(&n.slots[1]),
            border: optional_of(&n.slots[2]),
            numbering: optional_of(&n.slots[3]),
            outline_level: optional_of(&n.slots[4]),
            section: optional_of(&n.slots[5]),
        };
        proof {
            let got = r.node();
            assert(got.attributes =~= n@.attributes);
            assert(got.slots[0] =~= n@.slots[0]);
            assert(got.slots[1] =~= n@.slots[1]);
            assert(got.slots[2] =~= n@.slots[2]);
            assert(got.slots[3] =~= n@.slots[3]);
            assert(got.slots[4] =~= n@.slots[4]);
            assert(got.slots[5] =~= n@.slots[5]);
            assert(got.slots =~= n@.slots);
            assert(got.text =~= n@.text);
        }
        r
    }
}

impl Element for ParagraphProperty {
    open spec fn tokens(&self) -> Seq<Tok> {
        element_tokens(model(), self.node())
    }

    open spec fn kind_spec() -> nat {
        PARAGRAPH_PROPERTY as nat
    }

    proof fn lemma_kind() {
        lemma_kind_paragraph_property();
    }

    fn kind() -> (k: usize) {
        proof {
            lemma_kind_paragraph_property();
        }
        PARAGRAPH_PROPERTY
    }

    fn to_writer(&self, sink: &mut Sink) -> (r: Result<(), WriteError>) {
        let schema = schema();
        let node = self.to_node();
        encode_element(&schema, &node, sink)
    }
}

impl ParagraphProperty {
    /// The element that the default value stands for.
    pub open spec fn initial() -> NodeView {
        NodeView {
            kind: PARAGRAPH_PROPERTY as nat,
            attributes: Seq::empty(),
            slots: seq![Seq::empty(), Seq::empty(), Seq::empty(), Seq::empty(), Seq::empty(), Seq::empty()],
            text: Seq::empty(),
        }
    }
}

impl Default for ParagraphProperty {
    fn default() -> (r: ParagraphProperty)
        ensures
            r.node() == Self::initial(),
    {
        let r = ParagraphProperty {
            style_id: None,
            justification: None,
            border: None,
            numbering: None,
            outline_level: None,
            section: None,
        };
        proof {
            let got = r.node();
            let want = Self::initial();
            assert(got.attributes =~= want.attributes);
            assert(got.slots[0] =~= want.slots[0]);
            assert(got.slots[1] =~= want.slots[1]);
            assert(got.slots[2] =~= want.slots[2]);
            assert(got.slots[3] =~= want.slots[3]);
            assert(got.slots[4] =~= want.slots[4]);
            assert(got.slots[5] =~= want.slots[5]);
            assert(got.slots =~= want.slots);
            assert(got.text =~= want.text);
        }
        r
    }
}

impl ParagraphProperty {
    /// The default stands for an element of the model, all of which is
    /// written.
    pub proof fn lemma_initial()
        ensures
            Self::initial().conforms(model()),
            Self::initial().written_back(model()),
            Self::initial().kind == PARAGRAPH_PROPERTY,
    {
        lemma_kind_paragraph_property();
        let dv = Self::descriptor_spec();
        let n = Self::initial();
        assert(n.attributes_fit(model(), true));
        assert(n.slots_fit(model(), true));
        assert forall|i: int, j: int|
            0 <= i < n.slots.len() && 0 <= j < n.slots[i].len() implies dv.slots[i].accepts(
            (#[trigger] n.slots[i][j]).kind,
        ) by {
        }
        assert(n.children_fit(model()));
    }

    /// What is written of the default is read as the default.
    pub proof fn lemma_default_round_trip(rest: Seq<Tok>)
        ensures
            decode_element_spec(
                model(),
                PARAGRAPH_PROPERTY as nat,
                element_tokens(model(), Self::initial()).skip(1) + rest,
            ) == Ok::<_, DecodeError>((Self::initial(), rest)),
    {
        Self::lemma_initial();
        lemma_model_well_formed();
        lemma_round_trip(model(), Self::initial(), rest);
    }
}

impl ParagraphProperty {
    /// The same with `value` as its `style_id`.
    pub fn style_id(self, value: ParagraphStyleId) -> (r: ParagraphProperty)
        ensures
            r == (ParagraphProperty { style_id: Some(value), ..self }),
    {
        let mut r = self;
        r.style_id = Some(value);
        r
    }

    /// The same with `value` as its `justification`.
    pub fn justification(self, value: Justification) -> (r: ParagraphProperty)
        ensures
            r == (ParagraphProperty { justification: Some(value), ..self }),
    {
        let mut r = self;
        r.justification = Some(value);
        r
    }

    /// The same with `value` as its `border`.
    pub fn border(self, value: Borders) -> (r: ParagraphProperty)
        ensures
            r == (ParagraphProperty { border: Some(value), ..self }),
    {
        let mut r = self;
        r.border = Some(value);
        r
    }

    /// The same with `value` as its `numbering`.
    pub fn numbering(self, value: NumberingProperty) -> (r: ParagraphProperty)
        ensures
            r == (ParagraphProperty { numbering: Some(value), ..self }),
    {
        let mut r = self;
        r.numbering = Some(value);
        r
    }
}

impl ParagraphStyleId {
    /// The identifier `value`.
    pub fn from(value: &str) -> (r: ParagraphStyleId)
        ensures
            r.value@ == value@,
    {
        ParagraphStyleId { value: String::from_str(value) }
    }
}

} // verus!
