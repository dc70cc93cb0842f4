//! The properties of a run of text.

use crate::catalog::{
    lemma_kind_character_property, lemma_kind_character_style_id, lemma_model_well_formed, model,
    schema, BOLD, CHARACTER_PROPERTY, CHARACTER_STYLE_ID, ITALICS,
};
use crate::decode::decode_element_spec;
use crate::encode::{element_tokens, encode_element};
use crate::entity::{node_of_optional, optional_node, optional_of, text_of, Element, Entity};
use crate::error::{DecodeError, WriteError};
use crate::formatting::bold::Bold;
use crate::formatting::italics::Italics;
use crate::laws::lemma_round_trip;
use crate::node::{value_view, Node, NodeView, Scalar, ScalarView};
use crate::schema::{
    AlternativeView, Attribute, AttributeView, Cardinality, Codec, Content, Descriptor,
    DescriptorView, Name, NameView, Slot, SlotView,
};
use crate::token::Tok;
use crate::writer::Sink;
use vstd::prelude::*;

verus! {

/// The identifier of a character style.
#[derive(Debug, PartialEq)]
pub struct CharacterStyleId {
    pub value: String,
}

impl CharacterStyleId {
    /// What the mapping knows of the element: its tag, its attributes and
    /// the slots of its children.
    pub open spec fn descriptor_spec() -> DescriptorView {
        DescriptorView {
            tag: NameView { prefix: "w"@, local: "rStyle"@ },
            attributes: seq![
                AttributeView {
                    name: NameView { prefix: "w"@, local: "val"@ },
                    codec: Codec::Text,
                    required: true,
                },
            ],
            slots: Seq::empty(),
            content: Content::Children,
        }
    }

    /// What the mapping knows of the element.
    pub fn descriptor() -> (d: Descriptor)
        ensures
            d@ == Self::descriptor_spec(),
    {
        let mut attributes: Vec<Attribute> = Vec::new();
        attributes.push(Attribute::new("w", "val", Codec::Text, true));
        let slots: Vec<Slot> = Vec::new();
        let d = Descriptor {
            tag: Name::new("w", "rStyle"),
            attributes,
            slots,
            content: Content::Children,
        };
        proof {
            let want = Self::descriptor_spec();
            assert(d@.attributes =~= want.attributes);
            assert(d@.slots =~= want.slots);
        }
        d
    }

    /// No two attributes of the element have the same name, and no two of its
    /// slots accept the same tag.
    pub proof fn lemma_descriptor_distinct()
        ensures
            Self::descriptor_spec().distinct(),
    {
    }
}

impl Entity for CharacterStyleId {
    open spec fn accepts(kind: nat) -> bool {
        kind == CHARACTER_STYLE_ID
    }

    open spec fn node(&self) -> NodeView {
        NodeView {
            kind: CHARACTER_STYLE_ID as nat,
            attributes: seq![
                Some(ScalarView::Text(self.value@)),
            ],
            slots: Seq::empty(),
            text: Seq::empty(),
        }
    }

    proof fn lemma_node_conforms(&self) {
        lemma_kind_character_style_id();
        let dv = Self::descriptor_spec();
        let n = self.node();
        assert(n.attributes_fit(model(), true));
        assert(n.slots_fit(model(), true));
        assert(n.children_fit(model()));
    }

    fn to_node(&self) -> (n: Node) {
        let mut attributes: Vec<Option<Scalar>> = Vec::new();
        attributes.push(Some(Scalar::Text(self.value.clone())));
        let slots: Vec<Vec<Node>> = Vec::new();
        let n = Node { kind: CHARACTER_STYLE_ID, attributes, slots, text: String::new() };
        proof {
            lemma_kind_character_style_id();
            let dv = Self::descriptor_spec();
            let want = self.node();
            assert(n@.attributes =~= want.attributes);
            assert(n@.slots =~= want.slots);
            assert(n@.text =~= want.text);
            self.lemma_node_conforms();
        }
        n
    }

    fn from_node(n: &Node) -> (r: CharacterStyleId) {
        proof {
            lemma_kind_character_style_id();
            let dv = Self::descriptor_spec();
            assert(n@.attributes[0] == value_view(n.attributes@[0]));
        }
        let r = CharacterStyleId {
            value: match text_of(&n.attributes[0]) {
                Some(v) => v,
                None => String::new(),
            },
        };
        proof {
            let got = r.node();
            assert(got.attributes =~= n@.attributes);
            assert(got.slots =~= n@.slots);
            assert(got.text =~= n@.text);
        }
        r
    }
}

impl Element for CharacterStyleId {
    open spec fn tokens(&self) -> Seq<Tok> {
        element_tokens(model(), self.node())
    }

    open spec fn kind_spec() -> nat {
        CHARACTER_STYLE_ID as nat
    }

    proof fn lemma_kind() {
        lemma_kind_character_style_id();
    }

    fn kind() -> (k: usize) {
        proof {
            lemma_kind_character_style_id();
        }
        CHARACTER_STYLE_ID
    }

    fn to_writer(&self, sink: &mut Sink) -> (r: Result<(), WriteError>) {
        let schema = schema();
        let node = self.to_node();
        encode_element(&schema, &node, sink)
    }
}

/// The properties of a run of text.
#[derive(Debug, PartialEq)]
pub struct CharacterProperty {
    /// the identifier of the character style
    pub style_id: Option<CharacterStyleId>,
    pub bold: Option<Bold>,
    pub italics: Option<Italics>,
}

impl CharacterProperty {
    /// What the mapping knows of the element: its tag, its attributes and
    /// the slots of its children.
    pub open spec fn descriptor_spec() -> DescriptorView {
        DescriptorView {
            tag: NameView { prefix: "w"@, local: "rPr"@ },
            attributes: Seq::empty(),
            slots: seq![
                SlotView {
                    cardinality: Cardinality::Optional,
                    alternatives: seq![
                        AlternativeView {
                            tag: NameView { prefix: "w"@, local: "rStyle"@ },
                            kind: CHARACTER_STYLE_ID as nat,
                        },
                    ],
                },
                SlotView {
                    cardinality: Cardinality::Optional,
                    alternatives: seq![
                        AlternativeView {
                            tag: NameView { prefix: "w"@, local: "b"@ },
                            kind: BOLD as nat,
                        },
                    ],
                },
                SlotView {
                    cardinality: Cardinality::Optional,
                    alternatives: seq![
                        AlternativeView {
                            tag: NameView { prefix: "w"@, local: "i"@ },
                            kind: ITALICS as nat,
                        },
                    ],
                },
            ],
            content: Content::Children,
        }
    }

    /// What the mapping knows of the element.
    pub fn descriptor() -> (d: Descriptor)
        ensures
            d@ == Self::descriptor_spec(),
    {
        let attributes: Vec<Attribute> = Vec::new();
        let mut slots: Vec<Slot> = Vec::new();
        slots.push(Slot::one(Cardinality::Optional, "w", "rStyle", CHARACTER_STYLE_ID));
        slots.push(Slot::one(Cardinality::Optional, "w", "b", BOLD));
        slots.push(Slot::one(Cardinality::Optional, "w", "i", ITALICS));
        let d = Descriptor {
            tag: Name::new("w", "rPr"),
            attributes,
            slots,
            content: Content::Children,
        };
        proof {
            let want = Self::descriptor_spec();
            assert(d@.attributes =~= want.attributes);
            assert(d@.slots[0].alternatives =~= want.slots[0].alternatives);
            assert(d@.slots[1].alternatives =~= want.slots[1].alternatives);
            assert(d@.slots[2].alternatives =~= want.slots[2].alternatives);
            assert(d@.slots =~= want.slots);
        }
        d
    }

    /// No two attributes of the element have the same name, and no two of its
    /// slots accept the same tag.
    pub proof fn lemma_descriptor_distinct()
        ensures
            Self::descriptor_spec().distinct(),
    {
        reveal_strlit("b");
        reveal_strlit("i");
        reveal_strlit("rStyle");
        reveal_strlit("w");
        assert("rStyle"@.len() != "b"@.len());
        assert("rStyle"@.len() != "i"@.len());
        assert("b"@[0] != "i"@[0]);
    }
}

impl Entity for CharacterProperty {
    open spec fn accepts(kind: nat) -> bool {
        kind == CHARACTER_PROPERTY
    }

    open spec fn node(&self) -> NodeView {
        NodeView {
            kind: CHARACTER_PROPERTY as nat,
            attributes: Seq::empty(),
            slots: seq![optional_node(self.style_id), optional_node(self.bold), optional_node(self.italics)],
            text: Seq::empty(),
        }
    }

    proof fn lemma_node_conforms(&self) {
        lemma_kind_character_property();
        let dv = Self::descriptor_spec();
        let n = self.node();
        match self.style_id {
            Some(child) => {
                child.lemma_node_conforms();
            },
            None => {},
        }
        match self.bold {
            Some(child) => {
                child.lemma_node_conforms();
            },
            None => {},
        }
        match self.italics {
            Some(child) => {
                child.lemma_node_conforms();
            },
            None => {},
        }
        assert(n.attributes_fit(model(), true));
        assert(n.slots_fit(model(), true));
        assert forall|i: int, j: int|
            0 <= i < n.slots.len() && 0 <= j < n.slots[i].len() implies dv.slots[i].accepts(
            (#[trigger] n.slots[i][j]).kind,
        ) by {
            if i == 0 {
                assert(CharacterStyleId::accepts(n.slots[i][j].kind));
                assert(dv.slots[0].alternatives[0].kind == n.slots[i][j].kind);
            } else if i == 1 {
                assert(Bold::accepts(n.slots[i][j].kind));
                assert(dv.slots[1].alternatives[0].kind == n.slots[i][j].kind);
            } else if i == 2 {
                assert(Italics::accepts(n.slots[i][j].kind));
                assert(dv.slots[2].alternatives[0].kind == n.slots[i][j].kind);
            }
        }
        assert forall|i: int, j: int|
            0 <= i < n.slots.len() && 0 <= j < n.slots[i].len() implies (#[trigger] n.slots[i][j]).conforms(
            model(),
        ) by {
            if i == 0 {
                assert(n.slots[i][j].conforms(model()));
            } else if i == 1 {
                assert(n.slots[i][j].conforms(model()));
            } else if i == 2 {
                assert(n.slots[i][j].conforms(model()));
            }
        }
        assert(n.children_fit(model()));
    }

    fn to_node(&self) -> (n: Node) {
        let attributes: Vec<Option<Scalar>> = Vec::new();
        let mut slots: Vec<Vec<Node>> = Vec::new();
        slots.push(node_of_optional(&self.style_id));
        slots.push(node_of_optional(&self.bold));
        slots.push(node_of_optional(&self.italics));
        let n = Node { kind: CHARACTER_PROPERTY, attributes, slots, text: String::new() };
        proof {
            lemma_kind_character_property();
            let dv = Self::descriptor_spec();
            let want = self.node();
            assert(n@.attributes =~= want.attributes);
            assert(n@.slots[0] =~= want.slots[0]);
            assert(n@.slots[1] =~= want.slots[1]);
            assert(n@.slots[2] =~= want.slots[2]);
            assert(n@.slots =~= want.slots);
            assert(n@.text =~= want.text);
            self.lemma_node_conforms();
        }
        n
    }

    fn from_node(n: &Node) -> (r: CharacterProperty) {
        proof {
            lemma_kind_character_property();
            let dv = Self::descriptor_spec();
            assert(n@.slots[0].len() == n.slots@[0]@.len());
            assert(n@.slots[1].len() == n.slots@[1]@.len());
            assert(n@.slots[2].len() == n.slots@[2]@.len());
            assert forall|j: int| 0 <= j < n.slots[0]@.len() implies (#[trigger] n.slots[0]@[j])@.conforms(
                model(),
            ) && CharacterStyleId::accepts(n.slots[0]@[j]@.kind) by {
                assert(n@.slots[0][j] == n.slots[0]@[j]@);
                assert(dv.slots[0].accepts(n@.slots[0][j].kind));
            }
            assert forall|j: int| 0 <= j < n.slots[1]@.len() implies (#[trigger] n.slots[1]@[j])@.conforms(
                model(),
            ) && Bold::accepts(n.slots[1]@[j]@.kind) by {
                assert(n@.slots[1][j] == n.slots[1]@[j]@);
                assert(dv.slots[1].accepts(n@.slots[1][j].kind));
            }
            assert forall|j: int| 0 <= j < n.slots[2]@.len() implies (#[trigger] n.slots[2]@[j])@.conforms(
                model(),
            ) && Italics::accepts(n.slots[2]@[j]@.kind) by {
                assert(n@.slots[2][j] == n.slots[2]@[j]@);
                assert(dv.slots[2].accepts(n@.slots[2][j].kind));
            }
        }
        let r = CharacterProperty {
            style_id: optional_of(&n.slots[0]),
            bold: optional_of(&n.slots[1]),
            italics: optional_of(&n.slots[2]),
        };
        proof {
            let got = r.node();
            assert(got.attributes =~= n@.attributes);
            assert(got.slots[0] =~= n@.slots[0]);
            assert(got.slots[1] =~= n@.slots[1]);
            assert(got.slots[2] =~= n@.slots[2]);
            assert(got.slots =~= n@.slots);
            assert(got.text =~= n@.text);
        }
        r
    }
}

impl Element for CharacterProperty {
    open spec fn tokens(&self) -> Seq<Tok> {
        element_tokens(model(), self.node())
    }

    open spec fn kind_spec() -> nat {
        CHARACTER_PROPERTY as nat
    }

    proof fn lemma_kind() {
        lemma_kind_character_property();
    }

    fn kind() -> (k: usize) {
        proof {
            lemma_kind_character_property();
        }
        CHARACTER_PROPERTY
    }

    fn to_writer(&self, sink: &mut Sink) -> (r: Result<(), WriteError>) {
        let schema = schema();
        let node = self.to_node();
        encode_element(&schema, &node, sink)
    }
}

impl CharacterProperty {
    /// The element that the default value stands for.
    pub open spec fn initial() -> NodeView {
        NodeView {
            kind: CHARACTER_PROPERTY as nat,
            attributes: Seq::empty(),
            slots: seq![Seq::empty(), Seq::empty(), Seq::empty()],
            text: Seq::empty(),
        }
    }
}

impl Default for CharacterProperty {
    fn default() -> (r: CharacterProperty)
        ensures
            r.node() == Self::initial(),
    {
        let r = CharacterProperty {
            style_id: None,
            bold: None,
            italics: None,
        };
        proof {
            let got = r.node();
            let want = Self::initial();
            assert(got.attributes =~= want.attributes);
            assert(got.slots[0] =~= want.slots[0]);
            assert(got.slots[1] =~= want.slots[1]);
            assert(got.slots[2] =~= want.slots[2]);
            assert(got.slots =~= want.slots);
            assert(got.text =~= want.text);
        }
        r
    }
}

impl CharacterProperty {
    /// The default stands for an element of the model, all of which is
    /// written.
    pub proof fn lemma_initial()
        ensures
            Self::initial().conforms(model()),
            Self::initial().written_back(model()),
            Self::initial().kind == CHARACTER_PROPERTY,
    {
        lemma_kind_character_property();
        let dv = Self::descriptor_spec();
        let n = Self::initial();
        assert(n.attributes_fit(model(), true));
        assert(n.slots_fit(model(), true));
        assert forall|i: int, j: int|
            0 <= i < n.slots.len() && 0 <= j < n.slots[i].len() implies dv.slots[i].accepts(
            (#[trigger] n.slots[i][j]).kind,
        ) by {
        }
        assert(n.children_fit(model()));
    }

    /// What is written of the default is read as the default.
    pub proof fn lemma_default_round_trip(rest: Seq<Tok>)
        ensures
            decode_element_spec(
                model(),
                CHARACTER_PROPERTY as nat,
                element_tokens(model(), Self::initial()).skip(1) + rest,
            ) == Ok::<_, DecodeError>((Self::initial(), rest)),
    {
        Self::lemma_initial();
        lemma_model_well_formed();
        lemma_round_trip(model(), Self::initial(), rest);
    }
}

impl CharacterProperty {
    /// The same with `value` as its `style_id`.
    pub fn style_id(self, value: CharacterStyleId) -> (r: CharacterProperty)
        ensures
            r == (CharacterProperty { style_id: Some(value), ..self }),
    {
        let mut r = self;
        r.style_id = Some(value);
        r
    }

    /// The same with `value` as its `bold`.
    pub fn bold(self, value: Bold) -> (r: CharacterProperty)
        ensures
            r == (CharacterProperty { bold: Some(value), ..self }),
    {
        let mut r = self;
        r.bold = Some(value);
        r
    }

    /// The same with `value` as its `italics`.
    pub fn italics(self, value: Italics) -> (r: CharacterProperty)
        ensures
            r == (CharacterProperty { italics: Some(value), ..self }),
    {
        let mut r = self;
        r.italics = Some(value);
        r
    }
}

impl CharacterStyleId {
    /// The identifier `value`.
    pub fn from(value: &str) -> (r: CharacterStyleId)
        ensures
            r.value@ == value@,
    {
        CharacterStyleId { value: String::from_str(value) }
    }
}

} // verus!
