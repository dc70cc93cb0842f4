//! The properties that hold where no style says otherwise.

use crate::catalog::{
    lemma_kind_default_character_style, lemma_kind_default_paragraph_style,
    lemma_kind_default_style, lemma_model_well_formed, model, schema, CHARACTER_PROPERTY,
    DEFAULT_CHARACTER_STYLE, DEFAULT_PARAGRAPH_STYLE, DEFAULT_STYLE, PARAGRAPH_PROPERTY,
};
use crate::decode::decode_element_spec;
use crate::encode::{element_tokens, encode_element};
use crate::entity::{node_of_one, Element, Entity};
use crate::error::{DecodeError, WriteError};
use crate::formatting::character_property::CharacterProperty;
use crate::formatting::paragraph_property::ParagraphProperty;
use crate::laws::lemma_round_trip;
use crate::node::{Node, NodeView, Scalar};
use crate::schema::{
    AlternativeView, Attribute, Cardinality, Content, Descriptor, DescriptorView, Name, NameView,
    Slot, SlotView,
};
use crate::token::Tok;
use crate::writer::Sink;
use vstd::prelude::*;

verus! {

/// The character properties that hold where no style says otherwise.
#[derive(Debug, PartialEq)]
pub struct DefaultCharacterStyle {
    pub inner: CharacterProperty,
}

impl DefaultCharacterStyle {
    /// What the mapping knows of the element: its tag, its attributes and
    /// the slots of its children.
    pub open spec fn descriptor_spec() -> DescriptorView {
        DescriptorView {
            tag: NameView { prefix: "w"@, local: "rPrDefault"@ },
            attributes: Seq::empty(),
            slots: seq![
                SlotView {
                    cardinality: Cardinality::Default,
                    alternatives: seq![
                        AlternativeView {
                            tag: NameView { prefix: "w"@, local: "rPr"@ },
                            kind: CHARACTER_PROPERTY as nat,
                        },
                    ],
                },
            ],
            content: Content::Children,
        }
    }

    /// What the mapping knows of the element.
    pub fn descriptor() -> (d: Descriptor)
        ensures
            d@ == Self::descriptor_spec(),
    {
        let attributes: Vec<Attribute> = Vec::new();
        let mut slots: Vec<Slot> = Vec::new();
        slots.push(Slot::one(Cardinality::Default, "w", "rPr", CHARACTER_PROPERTY));
        let d = Descriptor {
            tag: Name::new("w", "rPrDefault"),
            attributes,
            slots,
            content: Content::Children,
        };
        proof {
            let want = Self::descriptor_spec();
            assert(d@.attributes =~= want.attributes);
            assert(d@.slots[0].alternatives =~= want.slots[0].alternatives);
            assert(d@.slots =~= want.slots);
        }
        d
    }

    /// No two attributes of the element have the same name, and no two of its
    /// slots accept the same tag.
    pub proof fn lemma_descriptor_distinct()
        ensures
            Self::descriptor_spec().distinct(),
    {
    }
}

impl Entity for DefaultCharacterStyle {
    open spec fn accepts(kind: nat) -> bool {
        kind == DEFAULT_CHARACTER_STYLE
    }

    open spec fn node(&self) -> NodeView {
        NodeView {
            kind: DEFAULT_CHARACTER_STYLE as nat,
            attributes: Seq::empty(),
            slots: seq![seq![self.inner.node()]],
            text: Seq::empty(),
        }
    }

    proof fn lemma_node_conforms(&self) {
        lemma_kind_default_character_style();
        let dv = Self::descriptor_spec();
        let n = self.node();
        self.inner.lemma_node_conforms();
        assert(n.attributes_fit(model(), true));
        assert(n.slots_fit(model(), true));
        assert forall|i: int, j: int|
            0 <= i < n.slots.len() && 0 <= j < n.slots[i].len() implies dv.slots[i].accepts(
            (#[trigger] n.slots[i][j]).kind,
        ) by {
            if i == 0 {
                assert(CharacterProperty::accepts(n.slots[i][j].kind));
                assert(dv.slots[0].alternatives[0].kind == n.slots[i][j].kind);
            }
        }
        assert forall|i: int, j: int|
            0 <= i < n.slots.len() && 0 <= j < n.slots[i].len() implies (#[trigger] n.slots[i][j]).conforms(
            model(),
        ) by {
            if i == 0 {
                assert(n.slots[i][j].conforms(model()));
            }
        }
        assert(n.children_fit(model()));
    }

    fn to_node(&self) -> (n: Node) {
        let attributes: Vec<Option<Scalar>> = Vec::new();
        let mut slots: Vec<Vec<Node>> = Vec::new();
        slots.push(node_of_one(&self.inner));
        let n = Node { kind: DEFAULT_CHARACTER_STYLE, attributes, slots, text: String::new() };
        proof {
            lemma_kind_default_character_style();
            let dv = Self::descriptor_spec();
            let want = self.node();
            assert(n@.attributes =~= want.attributes);
            assert(n@.slots[0] =~= want.slots[0]);
            assert(n@.slots =~= want.slots);
            assert(n@.text =~= want.text);
            self.lemma_node_conforms();
        }
        n
    }

    fn from_node(n: &Node) -> (r: DefaultCharacterStyle) {
        proof {
            lemma_kind_default_character_style();
            let dv = Self::descriptor_spec();
            assert(n@.slots[0].len() == n.slots@[0]@.len());
            assert forall|j: int| 0 <= j < n.slots[0]@.len() implies (#[trigger] n.slots[0]@[j])@.conforms(
                model(),
            ) && CharacterProperty::accepts(n.slots[0]@[j]@.kind) by {
                assert(n@.slots[0][j] == n.slots[0]@[j]@);
                assert(dv.slots[0].accepts(n@.slots[0][j].kind));
            }
        }
        let r = DefaultCharacterStyle {
            inner: CharacterProperty::from_node(&n.slots[0][0]),
        };
        proof {
            let got = r.node();
            assert(got.attributes =~= n@.attributes);
            assert(got.slots[0] =~= n@.slots[0]);
            assert(got.slots =~= n@.slots);
            assert(got.text =~= n@.text);
        }
        r
    }
}

impl Element for DefaultCharacterStyle {
    open spec fn tokens(&self) -> Seq<Tok> {
        element_tokens(model(), self.node())
    }

    open spec fn kind_spec() -> nat {
        DEFAULT_CHARACTER_STYLE as nat
    }

    proof fn lemma_kind() {
        lemma_kind_default_character_style();
    }

    fn kind() -> (k: usize) {
        proof {
            lemma_kind_default_character_style();
        }
        DEFAULT_CHARACTER_STYLE
    }

    fn to_writer(&self, sink: &mut Sink) -> (r: Result<(), WriteError>) {
        let schema = schema();
        let node = self.to_node();
        encode_element(&schema, &node, sink)
    }
}

impl DefaultCharacterStyle {
    /// The element that the default value stands for.
    pub open spec fn initial() -> NodeView {
        NodeView {
            kind: DEFAULT_CHARACTER_STYLE as nat,
            attributes: Seq::empty(),
            slots: seq![seq![CharacterProperty::initial()]],
            text: Seq::empty(),
        }
    }
}

impl Default for DefaultCharacterStyle {
    fn default() -> (r: DefaultCharacterStyle)
        ensures
            r.node() == Self::initial(),
    {
        let r = DefaultCharacterStyle {
            inner: CharacterProperty::default(),
        };
        proof {
            let got = r.node();
            let want = Self::initial();
            assert(got.attributes =~= want.attributes);
            assert(got.slots[0] =~= want.slots[0]);
            assert(got.slots =~= want.slots);
            assert(got.text =~= want.text);
        }
        r
    }
}

impl DefaultCharacterStyle {
    /// The default stands for an element of the model, all of which is
    /// written.
    pub proof fn lemma_initial()
        ensures
            Self::initial().conforms(model()),
            Self::initial().written_back(model()),
            Self::initial().kind == DEFAULT_CHARACTER_STYLE,
    {
        lemma_kind_default_character_style();
        let dv = Self::descriptor_spec();
        let n = Self::initial();
        CharacterProperty::lemma_initial();
        assert(n.attributes_fit(model(), true));
        assert(n.slots_fit(model(), true));
        assert forall|i: int, j: int|
            0 <= i < n.slots.len() && 0 <= j < n.slots[i].len() implies dv.slots[i].accepts(
            (#[trigger] n.slots[i][j]).kind,
        ) by {
            if i == 0 {
                assert(dv.slots[0].alternatives[0].kind == n.slots[i][j].kind);
            }
        }
        assert(n.children_fit(model()));
    }

    /// What is written of the default is read as the default.
    pub proof fn lemma_default_round_trip(rest: Seq<Tok>)
        ensures
            decode_element_spec(
                model(),
                DEFAULT_CHARACTER_STYLE as nat,
                element_tokens(model(), Self::initial()).skip(1) + rest,
            ) == Ok::<_, DecodeError>((Self::initial(), rest)),
    {
        Self::lemma_initial();
        lemma_model_well_formed();
        lemma_round_trip(model(), Self::initial(), rest);
    }
}

/// The paragraph properties that hold where no style says otherwise.
#[derive(Debug, PartialEq)]
pub struct DefaultParagraphStyle {
    pub inner: ParagraphProperty,
}

impl DefaultParagraphStyle {
    /// What the mapping knows of the element: its tag, its attributes and
    /// the slots of its children.
    pub open spec fn descriptor_spec() -> DescriptorView {
        DescriptorView {
            tag: NameView { prefix: "w"@, local: "pPrDefault"@ },
            attributes: Seq::empty(),
            slots: seq![
                SlotView {
                    cardinality: Cardinality::Default,
                    alternatives: seq![
                        AlternativeView {
                            tag: NameView { prefix: "w"@, local: "pPr"@ },
                            kind: PARAGRAPH_PROPERTY as nat,
                        },
                    ],
                },
            ],
            content: Content::Children,
        }
    }

    /// What the mapping knows of the element.
    pub fn descriptor() -> (d: Descriptor)
        ensures
            d@ == Self::descriptor_spec(),
    {
        let attributes: Vec<Attribute> = Vec::new();
        let mut slots: Vec<Slot> = Vec::new();
        slots.push(Slot::one(Cardinality::Default, "w", "pPr", PARAGRAPH_PROPERTY));
        let d = Descriptor {
            tag: Name::new("w", "pPrDefault"),
            attributes,
            slots,
            content: Content::Children,
        };
        proof {
            let want = Self::descriptor_spec();
            assert(d@.attributes =~= want.attributes);
            assert(d@.slots[0].alternatives =~= want.slots[0].alternatives);
            assert(d@.slots =~= want.slots);
        }
        d
    }

    /// No two attributes of the element have the same name, and no two of its
    /// slots accept the same tag.
    pub proof fn lemma_descriptor_distinct()
        ensures
            Self::descriptor_spec().distinct(),
    {
    }
}

impl Entity for DefaultParagraphStyle {
    open spec fn accepts(kind: nat) -> bool {
        kind == DEFAULT_PARAGRAPH_STYLE
    }

    open spec fn node(&self) -> NodeView {
        NodeView {
            kind: DEFAULT_PARAGRAPH_STYLE as nat,
            attributes: Seq::empty(),
            slots: seq![seq![self.inner.node()]],
            text: Seq::empty(),
        }
    }

    proof fn lemma_node_conforms(&self) {
        lemma_kind_default_paragraph_style();
        let dv = Self::descriptor_spec();
        let n = self.node();
        self.inner.lemma_node_conforms();
        assert(n.attributes_fit(model(), true));
        assert(n.slots_fit(model(), true));
        assert forall|i: int, j: int|
            0 <= i < n.slots.len() && 0 <= j < n.slots[i].len() implies dv.slots[i].accepts(
            (#[trigger] n.slots[i][j]).kind,
        ) by {
            if i == 0 {
                assert(ParagraphProperty::accepts(n.slots[i][j].kind));
                assert(dv.slots[0].alternatives[0].kind == n.slots[i][j].kind);
            }
        }
        assert forall|i: int, j: int|
            0 <= i < n.slots.len() && 0 <= j < n.slots[i].len() implies (#[trigger] n.slots[i][j]).conforms(
            model(),
        ) by {
            if i == 0 {
                assert(n.slots[i][j].conforms(model()));
            }
        }
        assert(n.children_fit(model()));
    }

    fn to_node(&self) -> (n: Node) {
        let attributes: Vec<Option<Scalar>> = Vec::new();
        let mut slots: Vec<Vec<Node>> = Vec::new();
        slots.push(node_of_one(&self.inner));
        let n = Node { kind: DEFAULT_PARAGRAPH_STYLE, attributes, slots, text: String::new() };
        proof {
            lemma_kind_default_paragraph_style();
            let dv = Self::descriptor_spec();
            let want = self.node();
            assert(n@.attributes =~= want.attributes);
            assert(n@.slots[0] =~= want.slots[0]);
            assert(n@.slots =~= want.slots);
            assert(n@.text =~= want.text);
            self.lemma_node_conforms();
        }
        n
    }

    fn from_node(n: &Node) -> (r: DefaultParagraphStyle) {
        proof {
            lemma_kind_default_paragraph_style();
            let dv = Self::descriptor_spec();
            assert(n@.slots[0].len() == n.slots@[0]@.len());
            assert forall|j: int| 0 <= j < n.slots[0]@.len() implies (#[trigger] n.slots[0]@[j])@.conforms(
                model(),
            ) && ParagraphProperty::accepts(n.slots[0]@[j]@.kind) by {
                assert(n@.slots[0][j] == n.slots[0]@[j]@);
                assert(dv.slots[0].accepts(n@.slots[0][j].kind));
            }
        }
        let r = DefaultParagraphStyle {
            inner: ParagraphProperty::from_node(&n.slots[0][0]),
        };
        proof {
            let got = r.node();
            assert(got.attributes =~= n@.attributes);
            assert(got.slots[0] =~= n@.slots[0]);
            assert(got.slots =~= n@.slots);
            assert(got.text =~= n@.text);
        }
        r
    }
}

impl Element for DefaultParagraphStyle {
    open spec fn tokens(&self) -> Seq<Tok> {
        element_tokens(model(), self.node())
    }

    open spec fn kind_spec() -> nat {
        DEFAULT_PARAGRAPH_STYLE as nat
    }

    proof fn lemma_kind() {
        lemma_kind_default_paragraph_style();
    }

    fn kind() -> (k: usize) {
        proof {
            lemma_kind_default_paragraph_style();
        }
        DEFAULT_PARAGRAPH_STYLE
    }

    fn to_writer(&self, sink: &mut Sink) -> (r: Result<(), WriteError>) {
        let schema = schema();
        let node = self.to_node();
        encode_element(&schema, &node, sink)
    }
}

impl DefaultParagraphStyle {
    /// The element that the default value stands for.
    pub open spec fn initial() -> NodeView {
        NodeView {
            kind: DEFAULT_PARAGRAPH_STYLE as nat,
            attributes: Seq::empty(),
            slots: seq![seq![ParagraphProperty::initial()]],
            text: Seq::empty(),
        }
    }
}

impl Default for DefaultParagraphStyle {
    fn default() -> (r: DefaultParagraphStyle)
        ensures
            r.node() == Self::initial(),
    {
        let r = DefaultParagraphStyle {
            inner: ParagraphProperty::default(),
        };
        proof {
            let got = r.node();
            let want = Self::initial();
            assert(got.attributes =~= want.attributes);
            assert(got.slots[0] =~= want.slots[0]);
            assert(got.slots =~= want.slots);
            assert(got.text =~= want.text);
        }
        r
    }
}

impl DefaultParagraphStyle {
    /// The default stands for an element of the model, all of which is
    /// written.
    pub proof fn lemma_initial()
        ensures
            Self::initial().conforms(model()),
            Self::initial().written_back(model()),
            Self::initial().kind == DEFAULT_PARAGRAPH_STYLE,
    {
        lemma_kind_default_paragraph_style();
        let dv = Self::descriptor_spec();
        let n = Self::initial();
        ParagraphProperty::lemma_initial();
        assert(n.attributes_fit(model(), true));
        assert(n.slots_fit(model(), true));
        assert forall|i: int, j: int|
            0 <= i < n.slots.len() && 0 <= j < n.slots[i].len() implies dv.slots[i].accepts(
            (#[trigger] n.slots[i][j]).kind,
        ) by {
            if i == 0 {
                assert(dv.slots[0].alternatives[0].kind == n.slots[i][j].kind);
            }
        }
        assert(n.children_fit(model()));
    }

    /// What is written of the default is read as the default.
    pub proof fn lemma_default_round_trip(rest: Seq<Tok>)
        ensures
            decode_element_spec(
                model(),
                DEFAULT_PARAGRAPH_STYLE as nat,
                element_tokens(model(), Self::initial()).skip(1) + rest,
            ) == Ok::<_, DecodeError>((Self::initial(), rest)),
    {
        Self::lemma_initial();
        lemma_model_well_formed();
        lemma_round_trip(model(), Self::initial(), rest);
    }
}

/// The properties that hold where no style says otherwise.
#[derive(Debug, PartialEq)]
pub struct DefaultStyle {
    pub character: DefaultCharacterStyle,
    pub paragraph: DefaultParagraphStyle,
}

impl DefaultStyle {
    /// What the mapping knows of the element: its tag, its attributes and
    /// the slots of its children.
    pub open spec fn descriptor_spec() -> DescriptorView {
        DescriptorView {
            tag: NameView { prefix: "w"@, local: "docDefaults"@ },
            attributes: Seq::empty(),
            slots: seq![
                SlotView {
                    cardinality: Cardinality::Default,
                    alternatives: seq![
                        AlternativeView {
                            tag: NameView { prefix: "w"@, local: "rPrDefault"@ },
                            kind: DEFAULT_CHARACTER_STYLE as nat,
                        },
                    ],
                },
                SlotView {
                    cardinality: Cardinality::Default,
                    alternatives: seq![
                        AlternativeView {
                            tag: NameView { prefix: "w"@, local: "pPrDefault"@ },
                            kind: DEFAULT_PARAGRAPH_STYLE as nat,
                        },
                    ],
                },
            ],
            content: Content::Children,
        }
    }

    /// What the mapping knows of the element.
    pub fn descriptor() -> (d: Descriptor)
        ensures
            d@ == Self::descriptor_spec(),
    {
        let attributes: Vec<Attribute> = Vec::new();
        let mut slots: Vec<Slot> = Vec::new();
        slots.push(Slot::one(Cardinality::Default, "w", "rPrDefault", DEFAULT_CHARACTER_STYLE));
        slots.push(Slot::one(Cardinality::Default, "w", "pPrDefault", DEFAULT_PARAGRAPH_STYLE));
        let d = Descriptor {
            tag: Name::new("w", "docDefaults"),
            attributes,
            slots,
            content: Content::Children,
        };
        proof {
            let want = Self::descriptor_spec();
            assert(d@.attributes =~= want.attributes);
            assert(d@.slots[0].alternatives =~= want.slots[0].alternatives);
            assert(d@.slots[1].alternatives =~= want.slots[1].alternatives);
            assert(d@.slots =~= want.slots);
        }
        d
    }

    /// No two attributes of the element have the same name, and no two of its
    /// slots accept the same tag.
    pub proof fn lemma_descriptor_distinct()
        ensures
            Self::descriptor_spec().distinct(),
    {
        reveal_strlit("pPrDefault");
        reveal_strlit("rPrDefault");
        reveal_strlit("w");
        assert("rPrDefault"@[0] != "pPrDefault"@[0]);
    }
}

impl Entity for DefaultStyle {
    open spec fn accepts(kind: nat) -> bool {
        kind == DEFAULT_STYLE
    }

    open spec fn node(&self) -> NodeView {
        NodeView {
            kind: DEFAULT_STYLE as nat,
            attributes: Seq::empty(),
            slots: seq![seq![self.character.node()], seq![self.paragraph.node()]],
            text: Seq::empty(),
        }
    }

    proof fn lemma_node_conforms(&self) {
        lemma_kind_default_style();
        let dv = Self::descriptor_spec();
        let n = self.node();
        self.character.lemma_node_conforms();
        self.paragraph.lemma_node_conforms();
        assert(n.attributes_fit(model(), true));
        assert(n.slots_fit(model(), true));
        assert forall|i: int, j: int|
            0 <= i < n.slots.len() && 0 <= j < n.slots[i].len() implies dv.slots[i].accepts(
            (#[trigger] n.slots[i][j]).kind,
        ) by {
            if i == 0 {
                assert(DefaultCharacterStyle::accepts(n.slots[i][j].kind));
                assert(dv.slots[0].alternatives[0].kind == n.slots[i][j].kind);
            } else if i == 1 {
                assert(DefaultParagraphStyle::accepts(n.slots[i][j].kind));
                assert(dv.slots[1].alternatives[0].kind == n.slots[i][j].kind);
            }
        }
        assert forall|i: int, j: int|
            0 <= i < n.slots.len() && 0 <= j < n.slots[i].len() implies (#[trigger] n.slots[i][j]).conforms(
            model(),
        ) by {
            if i == 0 {
                assert(n.slots[i][j].conforms(model()));
            } else if i == 1 {
                assert(n.slots[i][j].conforms(model()));
            }
        }
        assert(n.children_fit(model()));
    }

    fn to_node(&self) -> (n: Node) {
        let attributes: Vec<Option<Scalar>> = Vec::new();
        let mut slots: Vec<Vec<Node>> = Vec::new();
        slots.push(node_of_one(&self.character));
        slots.push(node_of_one(&self.paragraph));
        let n = Node { kind: DEFAULT_STYLE, attributes, slots, text: String::new() };
        proof {
            lemma_kind_default_style();
            let dv = Self::descriptor_spec();
            let want = self.node();
            assert(n@.attributes =~= want.attributes);
            assert(n@.slots[0] =~= want.slots[0]);
            assert(n@.slots[1] =~= want.slots[1]);
            assert(n@.slots =~= want.slots);
            assert(n@.text =~= want.text);
            self.lemma_node_conforms();
        }
        n
    }

    fn from_node(n: &Node) -> (r: DefaultStyle) {
        proof {
            lemma_kind_default_style();
            let dv = Self::descriptor_spec();
            assert(n@.slots[0].len() == n.slots@[0]@.len());
            assert(n@.slots[1].len() == n.slots@[1]@.len());
            assert forall|j: int| 0 <= j < n.slots[0]@.len() implies (#[trigger] n.slots[0]@[j])@.conforms(
                model(),
            ) && DefaultCharacterStyle::accepts(n.slots[0]@[j]@.kind) by {
                assert(n@.slots[0][j] == n.slots[0]@[j]@);
                assert(dv.slots[0].accepts(n@.slots[0][j].kind));
            }
            assert forall|j: int| 0 <= j < n.slots[1]@.len() implies (#[trigger] n.slots[1]@[j])@.conforms(
                model(),
            ) && DefaultParagraphStyle::accepts(n.slots[1]@[j]@.kind) by {
                assert(n@.slots[1][j] == n.slots[1]@[j]@);
                assert(dv.slots[1].accepts(n@.slots[1][j].kind));
            }
        }
        let r = DefaultStyle {
            character: DefaultCharacterStyle::from_node(&n.slots[0][0]),
            paragraph: DefaultParagraphStyle::from_node(&n.slots[1][0]),
        };
        proof {
            let got = r.node();
            assert(got.attributes =~= n@.attributes);
            assert(got.slots[0] =~= n@.slots[0]);
            assert(got.slots[1] =~= n@.slots[1]);
            assert(got.slots =~= n@.slots);
            assert(got.text =~= n@.text);
        }
        r
    }
}

impl Element for DefaultStyle {
    open spec fn tokens(&self) -> Seq<Tok> {
        element_tokens(model(), self.node())
    }

    open spec fn kind_spec() -> nat {
        DEFAULT_STYLE as nat
    }

    proof fn lemma_kind() {
        lemma_kind_default_style();
    }

    fn kind() -> (k: usize) {
        proof {
            lemma_kind_default_style();
        }
        DEFAULT_STYLE
    }

    fn to_writer(&self, sink: &mut Sink) -> (r: Result<(), WriteError>) {
        let schema = schema();
        let node = self.to_node();
        encode_element(&schema, &node, sink)
    }
}

impl DefaultStyle {
    /// The element that the default value stands for.
    pub open spec fn initial() -> NodeView {
        NodeView {
            kind: DEFAULT_STYLE as nat,
            attributes: Seq::empty(),
            slots: seq![seq![DefaultCharacterStyle::initial()], seq![DefaultParagraphStyle::initial()]],
            text: Seq::empty(),
        }
    }
}

impl Default for DefaultStyle {
    fn default() -> (r: DefaultStyle)
        ensures
            r.node() == Self::initial(),
    {
        let r = DefaultStyle {
            character: DefaultCharacterStyle::default(),
            paragraph: DefaultParagraphStyle::default(),
        };
        proof {
            let got = r.node();
            let want = Self::initial();
            assert(got.attributes =~= want.attributes);
            assert(got.slots[0] =~= want.slots[0]);
            assert(got.slots[1] =~= want.slots[1]);
            assert(got.slots =~= want.slots);
            assert(got.text =~= want.text);
        }
        r
    }
}

impl DefaultStyle {
    /// The default stands for an element of the model, all of which is
    /// written.
    pub proof fn lemma_initial()
        ensures
            Self::initial().conforms(model()),
            Self::initial().written_back(model()),
            Self::initial().kind == DEFAULT_STYLE,
    {
        lemma_kind_default_style();
        let dv = Self::descriptor_spec();
        let n = Self::initial();
        DefaultCharacterStyle::lemma_initial();
        DefaultParagraphStyle::lemma_initial();
        assert(n.attributes_fit(model(), true));
        assert(n.slots_fit(model(), true));
        assert forall|i: int, j: int|
            0 <= i < n.slots.len() && 0 <= j < n.slots[i].len() implies dv.slots[i].accepts(
            (#[trigger] n.slots[i][j]).kind,
        ) by {
            if i == 0 {
                assert(dv.slots[0].alternatives[0].kind == n.slots[i][j].kind);
            } else if i == 1 {
                assert(dv.slots[1].alternatives[0].kind == n.slots[i][j].kind);
            }
        }
        assert(n.children_fit(model()));
    }

    /// What is written of the default is read as the default.
    pub proof fn lemma_default_round_trip(rest: Seq<Tok>)
        ensures
            decode_element_spec(
                model(),
                DEFAULT_STYLE as nat,
                element_tokens(model(), Self::initial()).skip(1) + rest,
            ) == Ok::<_, DecodeError>((Self::initial(), rest)),
    {
        Self::lemma_initial();
        lemma_model_well_formed();
        lemma_round_trip(model(), Self::initial(), rest);
    }
}

impl DefaultStyle {
    /// The same with `value` as its `character`.
    pub fn character(self, value: DefaultCharacterStyle) -> (r: DefaultStyle)
        ensures
            r == (DefaultStyle { character: value, ..self }),
    {
        let mut r = self;
        r.character = value;
        r
    }

    /// The same with `value` as its `paragraph`.
    pub fn paragraph(self, value: DefaultParagraphStyle) -> (r: DefaultStyle)
        ensures
            r == (DefaultStyle { paragraph: value, ..self }),
    {
        let mut r = self;
        r.paragraph = value;
        r
    }
}

} // verus!
