//! A style: properties that apply to a region of the document.

use crate::catalog::{
    lemma_kind_based_on, lemma_kind_style, lemma_kind_style_name, lemma_symbols_style_type, model,
    schema, BASED_ON, CHARACTER_PROPERTY, PARAGRAPH_PROPERTY, STYLE, STYLE_NAME,
    STYLE_TYPE_SYMBOLS,
};
use crate::document::paragraph::Paragraph;
use crate::document::table::Table;
use crate::encode::{element_tokens, encode_element};
use crate::entity::{
    byte_of, byte_scalar, byte_value, node_of_one, node_of_optional, optional_node, optional_of,
    symbol_of, text_of, Element, Entity,
};
use crate::error::WriteError;
use crate::formatting::character_property::CharacterProperty;
use crate::formatting::paragraph_property::ParagraphProperty;
use crate::node::{value_view, Node, NodeView, Scalar, ScalarView};
use crate::numbering::Numbering;
use crate::scalar::{find_symbol, fingerprint, is_first, lemma_symbol_round_trip, symbol_index};
use crate::schema::{
    AlternativeView, Attribute, AttributeView, Cardinality, Codec, Content, Descriptor,
    DescriptorView, Name, NameView, Slot, SlotView,
};
use crate::token::Tok;
use crate::writer::Sink;
use vstd::prelude::*;
use vstd::string::StringExecFns;

verus! {

/// What a style applies to.
#[derive(Clone, Copy, Debug, PartialEq, Eq, Structural)]
pub enum StyleType {
    Character,
    Paragraph,
    Table,
    Numbering,
}

impl StyleType {
    /// The texts of the values, each at the index of its value.
    pub open spec fn symbols_spec() -> Seq<Seq<char>> {
        seq!["character"@, "paragraph"@, "table"@, "numbering"@]
    }

    /// The texts of the values, each at the index of its value.
    pub fn symbols() -> (table: Vec<String>)
        ensures
            Seq::new(table@.len(), |i: int| table@[i]@) == Self::symbols_spec(),
    {
        let mut table: Vec<String> = Vec::new();
        table.push(String::from_str("character"));
        table.push(String::from_str("paragraph"));
        table.push(String::from_str("table"));
        table.push(String::from_str("numbering"));
        assert(Seq::new(table@.len(), |i: int| table@[i]@) =~= Self::symbols_spec());
        table
    }

    /// The index of the value in the table of its texts.
    pub open spec fn index_spec(self) -> usize {
        match self {
            StyleType::Character => 0,
            StyleType::Paragraph => 1,
            StyleType::Table => 2,
            StyleType::Numbering => 3,
        }
    }

    /// The index of the value in the table of its texts.
    pub fn index(&self) -> (i: usize)
        ensures
            i == self.index_spec(),
            i < 4,
    {
        match self {
            StyleType::Character => 0,
            StyleType::Paragraph => 1,
            StyleType::Table => 2,
            StyleType::Numbering => 3,
        }
    }

    /// The value at an index of the table.
    pub fn from_index(i: usize) -> (r: StyleType)
        requires
            i < 4,
        ensures
            r.index_spec() == i,
    {
        if i == 0 {
            StyleType::Character
        } else if i == 1 {
            StyleType::Paragraph
        } else if i == 2 {
            StyleType::Table
        } else {
            StyleType::Numbering
        }
    }

    /// The text of the value.
    pub fn as_str(&self) -> (s: &'static str)
        ensures
            s@ == Self::symbols_spec()[self.index_spec() as int],
    {
        match self {
            StyleType::Character => "character",
            StyleType::Paragraph => "paragraph",
            StyleType::Table => "table",
            StyleType::Numbering => "numbering",
        }
    }

    /// The value that a text denotes; `None` for a text that is not in the
    /// table.
    pub fn from_str(s: &str) -> (r: Option<StyleType>)
        ensures
            symbol_index(Self::symbols_spec(), s@) == match r {
                Some(v) => Some(v.index_spec()),
                None => None,
            },
    {
        let table = Self::symbols();
        match find_symbol(&table, s) {
            Some(i) => {
                assert(is_first(Self::symbols_spec(), s@, i as int));
                Some(Self::from_index(i))
            },
            None => None,
        }
    }

    /// No two values have the same text.
    pub proof fn lemma_symbols_distinct()
        ensures
            Self::symbols_spec().len() == 4,
            forall|a: int, b: int|
                0 <= a < b < 4 ==> #[trigger] Self::symbols_spec()[a] != #[trigger] Self::symbols_spec()[b],
    {
        reveal_strlit("character");
        reveal_strlit("paragraph");
        reveal_strlit("table");
        reveal_strlit("numbering");
        assert(fingerprint("character"@, 0, 0) == (9int, 'c', 'r'));
        assert(fingerprint("paragraph"@, 0, 0) == (9int, 'p', 'h'));
        assert(fingerprint("table"@, 0, 0) == (5int, 't', 'e'));
        assert(fingerprint("numbering"@, 0, 0) == (9int, 'n', 'g'));
        let t = Self::symbols_spec();
        assert forall|a: int, b: int| 0 <= a < b < 4 implies #[trigger] t[a] != #[trigger] t[b] by {
            assert(fingerprint(t[a], 0, 0) != fingerprint(t[b], 0, 0));
        }
    }

    /// Every value is read back from its text.
    pub proof fn lemma_text_round_trip(v: StyleType)
        ensures
            symbol_index(Self::symbols_spec(), Self::symbols_spec()[v.index_spec() as int]) == Some(
                v.index_spec(),
            ),
    {
        Self::lemma_symbols_distinct();
        lemma_symbol_round_trip(Self::symbols_spec(), v.index_spec() as int);
    }
}

/// The style that a style is based on.
#[derive(Debug, PartialEq)]
pub struct BasedOn {
    pub value: String,
}

impl BasedOn {
    /// What the mapping knows of the element: its tag, its attributes and
    /// the slots of its children.
    pub open spec fn descriptor_spec() -> DescriptorView {
        DescriptorView {
            tag: NameView { prefix: "w"@, local: "basedOn"@ },
            attributes: seq![
                AttributeView {
                    name: NameView { prefix: "w"@, local: "val"@ },
                    codec: Codec::Text,
                    required: true,
                },
            ],
            slots: Seq::empty(),
            content: Content::Children,
        }
    }

    /// What the mapping knows of the element.
    pub fn descriptor() -> (d: Descriptor)
        ensures
            d@ == Self::descriptor_spec(),
    {
        let mut attributes: Vec<Attribute> = Vec::new();
        attributes.push(Attribute::new("w", "val", Codec::Text, true));
        let slots: Vec<Slot> = Vec::new();
        let d = Descriptor {
            tag: Name::new("w", "basedOn"),
            attributes,
            slots,
            content: Content::Children,
        };
        proof {
            let want = Self::descriptor_spec();
            assert(d@.attributes =~= want.attributes);
            assert(d@.slots =~= want.slots);
        }
        d
    }

    /// No two attributes of the element have the same name, and no two of its
    /// slots accept the same tag.
    pub proof fn lemma_descriptor_distinct()
        ensures
            Self::descriptor_spec().distinct(),
    {
    }
}

impl Entity for BasedOn {
    open spec fn accepts(kind: nat) -> bool {
        kind == BASED_ON
    }

    open spec fn node(&self) -> NodeView {
        NodeView {
            kind: BASED_ON as nat,
            attributes: seq![
                Some(ScalarView::Text(self.value@)),
            ],
            slots: Seq::empty(),
            text: Seq::empty(),
        }
    }

    proof fn lemma_node_conforms(&self) {
        lemma_kind_based_on();
        let dv = Self::descriptor_spec();
        let n = self.node();
        assert(n.attributes_fit(model(), true));
        assert(n.slots_fit(model(), true));
        assert(n.children_fit(model()));
    }

    fn to_node(&self) -> (n: Node) {
        let mut attributes: Vec<Option<Scalar>> = Vec::new();
        attributes.push(Some(Scalar::Text(self.value.clone())));
        let slots: Vec<Vec<Node>> = Vec::new();
        let n = Node { kind: BASED_ON, attributes, slots, text: String::new() };
        proof {
            lemma_kind_based_on();
            let dv = Self::descriptor_spec();
            let want = self.node();
            assert(n@.attributes =~= want.attributes);
            assert(n@.slots =~= want.slots);
            assert(n@.text =~= want.text);
            self.lemma_node_conforms();
        }
        n
    }

    fn from_node(n: &Node) -> (r: BasedOn) {
        proof {
            lemma_kind_based_on();
            let dv = Self::descriptor_spec();
            assert(n@.attributes[0] == value_view(n.attributes@[0]));
        }
        let r = BasedOn {
            value: match text_of(&n.attributes[0]) {
                Some(v) => v,
                None => String::new(),
            },
        };
        proof {
            let got = r.node();
            assert(got.attributes =~= n@.attributes);
            assert(got.slots =~= n@.slots);
            assert(got.text =~= n@.text);
        }
        r
    }
}

impl Element for BasedOn {
    open spec fn tokens(&self) -> Seq<Tok> {
        element_tokens(model(), self.node())
    }

    open spec fn kind_spec() -> nat {
        BASED_ON as nat
    }

    proof fn lemma_kind() {
        lemma_kind_based_on();
    }

    fn kind() -> (k: usize) {
        proof {
            lemma_kind_based_on();
        }
        BASED_ON
    }

    fn to_writer(&self, sink: &mut Sink) -> (r: Result<(), WriteError>) {
        let schema = schema();
        let node = self.to_node();
        encode_element(&schema, &node, sink)
    }
}

/// The primary name of a style.
#[derive(Debug, PartialEq)]
pub struct StyleName {
    pub value: String,
}

impl StyleName {
    /// What the mapping knows of the element: its tag, its attributes and
    /// the slots of its children.
    pub open spec fn descriptor_spec() -> DescriptorView {
        DescriptorView {
            tag: NameView { prefix: "w"@, local: "name"@ },
            attributes: seq![
                AttributeView {
                    name: NameView { prefix: "w"@, local: "val"@ },
                    codec: Codec::Text,
                    required: true,
                },
            ],
            slots: Seq::empty(),
            content: Content::Children,
        }
    }

    /// What the mapping knows of the element.
    pub fn descriptor() -> (d: Descriptor)
        ensures
            d@ == Self::descriptor_spec(),
    {
        let mut attributes: Vec<Attribute> = Vec::new();
        attributes.push(Attribute::new("w", "val", Codec::Text, true));
        let slots: Vec<Slot> = Vec::new();
        let d = Descriptor {
            tag: Name::new("w", "name"),
            attributes,
            slots,
            content: Content::Children,
        };
        proof {
            let want = Self::descriptor_spec();
            assert(d@.attributes =~= want.attributes);
            assert(d@.slots =~= want.slots);
        }
        d
    }

    /// No two attributes of the element have the same name, and no two of its
    /// slots accept the same tag.
    pub proof fn lemma_descriptor_distinct()
        ensures
            Self::descriptor_spec().distinct(),
    {
    }
}

impl Entity for StyleName {
    open spec fn accepts(kind: nat) -> bool {
        kind == STYLE_NAME
    }

    open spec fn node(&self) -> NodeView {
        NodeView {
            kind: STYLE_NAME as nat,
            attributes: seq![
                Some(ScalarView::Text(self.value@)),
            ],
            slots: Seq::empty(),
            text: Seq::empty(),
        }
    }

    proof fn lemma_node_conforms(&self) {
        lemma_kind_style_name();
        let dv = Self::descriptor_spec();
        let n = self.node();
        assert(n.attributes_fit(model(), true));
        assert(n.slots_fit(model(), true));
        assert(n.children_fit(model()));
    }

    fn to_node(&self) -> (n: Node) {
        let mut attributes: Vec<Option<Scalar>> = Vec::new();
        attributes.push(Some(Scalar::Text(self.value.clone())));
        let slots: Vec<Vec<Node>> = Vec::new();
        let n = Node { kind: STYLE_NAME, attributes, slots, text: String::new() };
        proof {
            lemma_kind_style_name();
            let dv = Self::descriptor_spec();
            let want = self.node();
            assert(n@.attributes =~= want.attributes);
            assert(n@.slots =~= want.slots);
            assert(n@.text =~= want.text);
            self.lemma_node_conforms();
        }
        n
    }

    fn from_node(n: &Node) -> (r: StyleName) {
        proof {
            lemma_kind_style_name();
            let dv = Self::descriptor_spec();
            assert(n@.attributes[0] == value_view(n.attributes@[0]));
        }
        let r = StyleName {
            value: match text_of(&n.attributes[0]) {
                Some(v) => v,
                None => String::new(),
            },
        };
        proof {
            let got = r.node();
            assert(got.attributes =~= n@.attributes);
            assert(got.slots =~= n@.slots);
            assert(got.text =~= n@.text);
        }
        r
    }
}

impl Element for StyleName {
    open spec fn tokens(&self) -> Seq<Tok> {
        element_tokens(model(), self.node())
    }

    open spec fn kind_spec() -> nat {
        STYLE_NAME as nat
    }

    proof fn lemma_kind() {
        lemma_kind_style_name();
    }

    fn kind() -> (k: usize) {
        proof {
            lemma_kind_style_name();
        }
        STYLE_NAME
    }

    fn to_writer(&self, sink: &mut Sink) -> (r: Result<(), WriteError>) {
        let schema = schema();
        let node = self.to_node();
        encode_element(&schema, &node, sink)
    }
}

/// A style: properties that apply to a region of the document.
#[derive(Debug, PartialEq)]
pub struct Style {
    /// what the style applies to
    pub ty: StyleType,
    /// the identifier by which content refers to the style
    pub style_id: String,
    /// whether this is the default style of its type
    pub is_default: Option<u8>,
    /// the style that this one is based on
    pub based_on: Option<BasedOn>,
    /// the primary name
    pub name: Option<StyleName>,
    /// the paragraph properties
    pub paragraph: ParagraphProperty,
    /// the character properties
    pub character: CharacterProperty,
}

impl Style {
    /// What the mapping knows of the element: its tag, its attributes and
    /// the slots of its children.
    pub open spec fn descriptor_spec() -> DescriptorView {
        DescriptorView {
            tag: NameView { prefix: "w"@, local: "style"@ },
            attributes: seq![
                AttributeView {
                    name: NameView { prefix: "w"@, local: "type"@ },
                    codec: Codec::Symbol(STYLE_TYPE_SYMBOLS),
                    required: true,
                },
                AttributeView {
                    name: NameView { prefix: "w"@, local: "styleId"@ },
                    codec: Codec::Text,
                    required: true,
                },
                AttributeView {
                    name: NameView { prefix: "w"@, local: "default"@ },
                    codec: Codec::Byte,
                    required: false,
                },
            ],
            slots: seq![
                SlotView {
                    cardinality: Cardinality::Optional,
                    alternatives: seq![
                        AlternativeView {
                            tag: NameView { prefix: "w"@, local: "basedOn"@ },
                            kind: BASED_ON as nat,
                        },
                    ],
                },
                SlotView {
                    cardinality: Cardinality::Optional,
                    alternatives: seq![
                        AlternativeView {
                            tag: NameView { prefix: "w"@, local: "name"@ },
                            kind: STYLE_NAME as nat,
                        },
                    ],
                },
                SlotView {
                    cardinality: Cardinality::Default,
                    alternatives: seq![
                        AlternativeView {
                            tag: NameView { prefix: "w"@, local: "pPr"@ },
                            kind: PARAGRAPH_PROPERTY as nat,
                        },
                    ],
                },
                SlotView {
                    cardinality: Cardinality::Default,
                    alternatives: seq![
                        AlternativeView {
                            tag: NameView { prefix: "w"@, local: "rPr"@ },
                            kind: CHARACTER_PROPERTY as nat,
                        },
                    ],
                },
            ],
            content: Content::Children,
        }
    }

    /// What the mapping knows of the element.
    pub fn descriptor() -> (d: Descriptor)
        ensures
            d@ == Self::descriptor_spec(),
    {
        let mut attributes: Vec<Attribute> = Vec::new();
        attributes.push(Attribute::new("w", "type", Codec::Symbol(STYLE_TYPE_SYMBOLS), true));
        attributes.push(Attribute::new("w", "styleId", Codec::Text, true));
        attributes.push(Attribute::new("w", "default", Codec::Byte, false));
        let mut slots: Vec<Slot> = Vec::new();
        slots.push(Slot::one(Cardinality::Optional, "w", "basedOn", BASED_ON));
        slots.push(Slot::one(Cardinality::Optional, "w", "name", STYLE_NAME));
        slots.push(Slot::one(Cardinality::Default, "w", "pPr", PARAGRAPH_PROPERTY));
        slots.push(Slot::one(Cardinality::Default, "w", "rPr", CHARACTER_PROPERTY));
        let d = Descriptor {
            tag: Name::new("w", "style"),
            attributes,
            slots,
            content: Content::Children,
        };
        proof {
            let want = Self::descriptor_spec();
            assert(d@.attributes =~= want.attributes);
            assert(d@.slots[0].alternatives =~= want.slots[0].alternatives);
            assert(d@.slots[1].alternatives =~= want.slots[1].alternatives);
            assert(d@.slots[2].alternatives =~= want.slots[2].alternatives);
            assert(d@.slots[3].alternatives =~= want.slots[3].alternatives);
            assert(d@.slots =~= want.slots);
        }
        d
    }

    /// No two attributes of the element have the same name, and no two of its
    /// slots accept the same tag.
    pub proof fn lemma_descriptor_distinct()
        ensures
            Self::descriptor_spec().distinct(),
    {
        reveal_strlit("basedOn");
        reveal_strlit("default");
        reveal_strlit("name");
        reveal_strlit("pPr");
        reveal_strlit("rPr");
        reveal_strlit("styleId");
        reveal_strlit("type");
        reveal_strlit("w");
        assert("type"@.len() != "styleId"@.len());
        assert("type"@.len() != "default"@.len());
        assert("styleId"@[0] != "default"@[0]);
        assert("basedOn"@.len() != "name"@.len());
        assert("basedOn"@.len() != "pPr"@.len());
        assert("basedOn"@.len() != "rPr"@.len());
        assert("name"@.len() != "pPr"@.len());
        assert("name"@.len() != "rPr"@.len());
        assert("pPr"@[0] != "rPr"@[0]);
    }
}

impl Entity for Style {
    open spec fn accepts(kind: nat) -> bool {
        kind == STYLE
    }

    open spec fn node(&self) -> NodeView {
        NodeView {
            kind: STYLE as nat,
            attributes: seq![
                Some(ScalarView::Symbol(self.ty.index_spec())),
                Some(ScalarView::Text(self.style_id@)),
                byte_value(self.is_default),
            ],
            slots: seq![optional_node(self.based_on), optional_node(self.name), seq![self.paragraph.node()], seq![self.character.node()]],
            text: Seq::empty(),
        }
    }

    proof fn lemma_node_conforms(&self) {
        lemma_kind_style();
        lemma_symbols_style_type();
        let dv = Self::descriptor_spec();
        let n = self.node();
        match self.based_on {
            Some(child) => {
                child.lemma_node_conforms();
            },
            None => {},
        }
        match self.name {
            Some(child) => {
                child.lemma_node_conforms();
            },
            None => {},
        }
        self.paragraph.lemma_node_conforms();
        self.character.lemma_node_conforms();
        assert(n.attributes_fit(model(), true));
        assert(n.slots_fit(model(), true));
        assert forall|i: int, j: int|
            0 <= i < n.slots.len() && 0 <= j < n.slots[i].len() implies dv.slots[i].accepts(
            (#[trigger] n.slots[i][j]).kind,
        ) by {
            if i == 0 {
                assert(BasedOn::accepts(n.slots[i][j].kind));
                assert(dv.slots[0].alternatives[0].kind == n.slots[i][j].kind);
            } else if i == 1 {
                assert(StyleName::accepts(n.slots[i][j].kind));
                assert(dv.slots[1].alternatives[0].kind == n.slots[i][j].kind);
            } else if i == 2 {
                assert(ParagraphProperty::accepts(n.slots[i][j].kind));
                assert(dv.slots[2].alternatives[0].kind == n.slots[i][j].kind);
            } else if i == 3 {
                assert(CharacterProperty::accepts(n.slots[i][j].kind));
                assert(dv.slots[3].alternatives[0].kind == n.slots[i][j].kind);
            }
        }
        assert forall|i: int, j: int|
            0 <= i < n.slots.len() && 0 <= j < n.slots[i].len() implies (#[trigger] n.slots[i][j]).conforms(
            model(),
        ) by {
            if i == 0 {
                assert(n.slots[i][j].conforms(model()));
            } else if i == 1 {
                assert(n.slots[i][j].conforms(model()));
            } else if i == 2 {
                assert(n.slots[i][j].conforms(model()));
            } else if i == 3 {
                assert(n.slots[i][j].conforms(model()));
            }
        }
        assert(n.children_fit(model()));
    }

    fn to_node(&self) -> (n: Node) {
        let mut attributes: Vec<Option<Scalar>> = Vec::new();
        attributes.push(Some(Scalar::Symbol(self.ty.index())));
        attributes.push(Some(Scalar::Text(self.style_id.clone())));
        attributes.push(byte_scalar(self.is_default));
        let mut slots: Vec<Vec<Node>> = Vec::new();
        slots.push(node_of_optional(&self.based_on));
        slots.push(node_of_optional(&self.name));
        slots.push(node_of_one(&self.paragraph));
        slots.push(node_of_one(&self.character));
        let n = Node { kind: STYLE, attributes, slots, text: String::new() };
        proof {
            lemma_kind_style();
            lemma_symbols_style_type();
            let dv = Self::descriptor_spec();
            let want = self.node();
            assert(n@.attributes =~= want.attributes);
            assert(n@.slots[0] =~= want.slots[0]);
            assert(n@.slots[1] =~= want.slots[1]);
            assert(n@.slots[2] =~= want.slots[2]);
            assert(n@.slots[3] =~= want.slots[3]);
            assert(n@.slots =~= want.slots);
            assert(n@.text =~= want.text);
            self.lemma_node_conforms();
        }
        n
    }

    fn from_node(n: &Node) -> (r: Style) {
        proof {
            lemma_kind_style();
            let dv = Self::descriptor_spec();
            lemma_symbols_style_type();
            assert(n@.attributes[0] == value_view(n.attributes@[0]));
            assert(n@.attributes[1] == value_view(n.attributes@[1]));
            assert(n@.attributes[2] == value_view(n.attributes@[2]));
            assert(n@.slots[0].len() == n.slots@[0]@.len());
            assert(n@.slots[1].len() == n.slots@[1]@.len());
            assert(n@.slots[2].len() == n.slots@[2]@.len());
            assert(n@.slots[3].len() == n.slots@[3]@.len());
            assert forall|j: int| 0 <= j < n.slots[0]@.len() implies (#[trigger] n.slots[0]@[j])@.conforms(
                model(),
            ) && BasedOn::accepts(n.slots[0]@[j]@.kind) by {
                assert(n@.slots[0][j] == n.slots[0]@[j]@);
                assert(dv.slots[0].accepts(n@.slots[0][j].kind));
            }
            assert forall|j: int| 0 <= j < n.slots[1]@.len() implies (#[trigger] n.slots[1]@[j])@.conforms(
                model(),
            ) && StyleName::accepts(n.slots[1]@[j]@.kind) by {
                assert(n@.slots[1][j] == n.slots[1]@[j]@);
                assert(dv.slots[1].accepts(n@.slots[1][j].kind));
            }
            assert forall|j: int| 0 <= j < n.slots[2]@.len() implies (#[trigger] n.slots[2]@[j])@.conforms(
                model(),
            ) && ParagraphProperty::accepts(n.slots[2]@[j]@.kind) by {
                assert(n@.slots[2][j] == n.slots[2]@[j]@);
                assert(dv.slots[2].accepts(n@.slots[2][j].kind));
            }
            assert forall|j: int| 0 <= j < n.slots[3]@.len() implies (#[trigger] n.slots[3]@[j])@.conforms(
                model(),
            ) && CharacterProperty::accepts(n.slots[3]@[j]@.kind) by {
                assert(n@.slots[3][j] == n.slots[3]@[j]@);
                assert(dv.slots[3].accepts(n@.slots[3][j].kind));
            }
        }
        let r = Style {
            ty: match symbol_of(&n.attributes[0]) {
                Some(i) => StyleType::from_index(i),
                None => StyleType::from_index(0),
            },
            style_id: match text_of(&n.attributes[1]) {
                Some(v) => v,
                None => String::new(),
            },
            is_default: byte_of(&n.attributes[2]),
            based_on: optional_of(&n.slots[0]),
            name: optional_of(&n.slots[1]),
            paragraph: ParagraphProperty::from_node(&n.slots[2][0]),
            character: CharacterProperty::from_node(&n.slots[3][0]),
        };
        proof {
            let got = r.node();
            assert(got.attributes =~= n@.attributes);
            assert(got.slots[0] =~= n@.slots[0]);
            assert(got.slots[1] =~= n@.slots[1]);
            assert(got.slots[2] =~= n@.slots[2]);
            assert(got.slots[3] =~= n@.slots[3]);
            assert(got.slots =~= n@.slots);
            assert(got.text =~= n@.text);
        }
        r
    }
}

impl Element for Style {
    open spec fn tokens(&self) -> Seq<Tok> {
        element_tokens(model(), self.node())
    }

    open spec fn kind_spec() -> nat {
        STYLE as nat
    }

    proof fn lemma_kind() {
        lemma_kind_style();
    }

    fn kind() -> (k: usize) {
        proof {
            lemma_kind_style();
        }
        STYLE
    }

    fn to_writer(&self, sink: &mut Sink) -> (r: Result<(), WriteError>) {
        let schema = schema();
        let node = self.to_node();
        encode_element(&schema, &node, sink)
    }
}

impl Style {
    /// The same with `value` as its `ty`.
    pub fn ty(self, value: StyleType) -> (r: Style)
        ensures
            r == (Style { ty: value, ..self }),
    {
        let mut r = self;
        r.ty = value;
        r
    }

    /// The same with `value` as its `name`.
    pub fn name(self, value: StyleName) -> (r: Style)
        ensures
            r == (Style { name: Some(value), ..self }),
    {
        let mut r = self;
        r.name = Some(value);
        r
    }

    /// The same with `value` as its `paragraph`.
    pub fn paragraph(self, value: ParagraphProperty) -> (r: Style)
        ensures
            r == (Style { paragraph: value, ..self }),
    {
        let mut r = self;
        r.paragraph = value;
        r
    }

    /// The same with `value` as its `character`.
    pub fn character(self, value: CharacterProperty) -> (r: Style)
        ensures
            r == (Style { character: value, ..self }),
    {
        let mut r = self;
        r.character = value;
        r
    }
}

impl Style {
    /// A style of the type `ty` under the identifier `style_id`, with nothing
    /// else set.
    pub fn new(ty: StyleType, style_id: &str) -> (r: Style)
        ensures
            r.ty == ty,
            r.style_id@ == style_id@,
            r.is_default is None,
            r.based_on is None,
            r.name is None,
            r.paragraph.node() == ParagraphProperty::initial(),
            r.character.node() == CharacterProperty::initial(),
    {
        Style {
            is_default: None,
            style_id: String::from_str(style_id),
            ty,
            based_on: None,
            name: None,
            paragraph: ParagraphProperty::default(),
            character: CharacterProperty::default(),
        }
    }
}

impl StyleName {
    /// The name `value`.
    pub fn from(value: &str) -> (r: StyleName)
        ensures
            r.value@ == value@,
    {
        StyleName { value: String::from_str(value) }
    }
}

} // verus!
