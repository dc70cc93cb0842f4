//! The numbering part: numbering definitions and their levels.

pub mod level;

pub use self::level::{LevelText, NumberingFormatVal, NumberingFormat, Start, Level};

use crate::catalog::{
    lemma_kind_abstract_numbering, lemma_kind_abstract_numbering_id, lemma_kind_num_style_link,
    lemma_kind_numbering, lemma_kind_numberings, lemma_model_declares_nothing,
    lemma_model_well_formed, model, schema, ABSTRACT_NUMBERING, ABSTRACT_NUMBERING_ID, LEVEL,
    NUMBERING, NUMBERINGS, NUM_STYLE_LINK,
};
use crate::decode::{decode_element_spec, decode_root_spec};
use crate::encode::{element_tokens, encode_element, encode_root, root_tokens, slots_tokens};
use crate::entity::{
    items_of, node_of_one, node_of_optional, nodes_of, nodes_of_spec, optional_node, optional_of,
    text_of, unsigned_of, Element, Entity,
};
use crate::error::{DecodeError, WriteError};
use crate::laws::{
    is_declaration, lemma_declared_root_round_trip, lemma_root_declares_once, lemma_round_trip,
};
use crate::node::{value_view, Node, NodeView, Scalar, ScalarView};
use crate::schema::{
    Alternative, AlternativeView, Attribute, AttributeView, Cardinality, Codec, Content,
    Descriptor, DescriptorView, Name, NameView, Slot, SlotView,
};
use crate::token::Tok;
use crate::writer::Sink;
use vstd::prelude::*;

verus! {

/// A reference to an abstract numbering definition.
#[derive(Clone, Copy, Debug, PartialEq)]
pub struct AbstractNumberingId {
    pub value: usize,
}

impl AbstractNumberingId {
    /// What the mapping knows of the element: its tag, its attributes and
    /// the slots of its children.
    pub open spec fn descriptor_spec() -> DescriptorView {
        DescriptorView {
            tag: NameView { prefix: "w"@, local: "abstractNumId"@ },
            attributes: seq![
                AttributeView {
                    name: NameView { prefix: "w"@, local: "val"@ },
                    codec: Codec::Unsigned,
                    required: true,
                },
            ],
            slots: Seq::empty(),
            content: Content::Children,
        }
    }

    /// What the mapping knows of the element.
    pub fn descriptor() -> (d: Descriptor)
        ensures
            d@ == Self::descriptor_spec(),
    {
        let mut attributes: Vec<Attribute> = Vec::new();
        attributes.push(Attribute::new("w", "val", Codec::Unsigned, true));
        let slots: Vec<Slot> = Vec::new();
        let d = Descriptor {
            tag: Name::new("w", "abstractNumId"),
            attributes,
            slots,
            content: Content::Children,
        };
        proof {
            let want = Self::descriptor_spec();
            assert(d@.attributes =~= want.attributes);
            assert(d@.slots =~= want.slots);
        }
        d
    }

    /// No two attributes of the element have the same name, and no two of its
    /// slots accept the same tag.
    pub proof fn lemma_descriptor_distinct()
        ensures
            Self::descriptor_spec().distinct(),
    {
    }
}

impl Entity for AbstractNumberingId {
    open spec fn accepts(kind: nat) -> bool {
        kind == ABSTRACT_NUMBERING_ID
    }

    open spec fn node(&self) -> NodeView {
        NodeView {
            kind: ABSTRACT_NUMBERING_ID as nat,
            attributes: seq![
                Some(ScalarView::Unsigned(self.value)),
            ],
            slots: Seq::empty(),
            text: Seq::empty(),
        }
    }

    proof fn lemma_node_conforms(&self) {
        lemma_kind_abstract_numbering_id();
        let dv = Self::descriptor_spec();
        let n = self.node();
        assert(n.attributes_fit(model(), true));
        assert(n.slots_fit(model(), true));
        assert(n.children_fit(model()));
    }

    fn to_node(&self) -> (n: Node) {
        let mut attributes: Vec<Option<Scalar>> = Vec::new();
        attributes.push(Some(Scalar::Unsigned(self.value)));
        let slots: Vec<Vec<Node>> = Vec::new();
        let n = Node { kind: ABSTRACT_NUMBERING_ID, attributes, slots, text: String::new() };
        proof {
            lemma_kind_abstract_numbering_id();
            let dv = Self::descriptor_spec();
            let want = self.node();
            assert(n@.attributes =~= want.attributes);
            assert(n@.slots =~= want.slots);
            assert(n@.text =~= want.text);
            self.lemma_node_conforms();
        }
        n
    }

    fn from_node(n: &Node) -> (r: AbstractNumberingId) {
        proof {
            lemma_kind_abstract_numbering_id();
            let dv = Self::descriptor_spec();
            assert(n@.attributes[0] == value_view(n.attributes@[0]));
        }
        let r = AbstractNumberingId {
            value: match unsigned_of(&n.attributes[0]) {
                Some(v) => v,
                None => 0,
            },
        };
        proof {
            let got = r.node();
            assert(got.attributes =~= n@.attributes);
            assert(got.slots =~= n@.slots);
            assert(got.text =~= n@.text);
        }
        r
    }
}

impl Element for AbstractNumberingId {
    open spec fn tokens(&self) -> Seq<Tok> {
        element_tokens(model(), self.node())
    }

    open spec fn kind_spec() -> nat {
        ABSTRACT_NUMBERING_ID as nat
    }

    proof fn lemma_kind() {
        lemma_kind_abstract_numbering_id();
    }

    fn kind() -> (k: usize) {
        proof {
            lemma_kind_abstract_numbering_id();
        }
        ABSTRACT_NUMBERING_ID
    }

    fn to_writer(&self, sink: &mut Sink) -> (r: Result<(), WriteError>) {
        let schema = schema();
        let node = self.to_node();
        encode_element(&schema, &node, sink)
    }
}

impl AbstractNumberingId {
    /// The element that the default value stands for.
    pub open spec fn initial() -> NodeView {
        NodeView {
            kind: ABSTRACT_NUMBERING_ID as nat,
            attributes: seq![Some(ScalarView::Unsigned(0))],
            slots: Seq::empty(),
            text: Seq::empty(),
        }
    }
}

impl Default for AbstractNumberingId {
    fn default() -> (r: AbstractNumberingId)
        ensures
            r.node() == Self::initial(),
    {
        let r = AbstractNumberingId {
            value: 0,
        };
        proof {
            let got = r.node();
            let want = Self::initial();
            assert(got.attributes =~= want.attributes);
            assert(got.slots =~= want.slots);
            assert(got.text =~= want.text);
        }
        r
    }
}

impl AbstractNumberingId {
    /// The default stands for an element of the model, all of which is
    /// written.
    pub proof fn lemma_initial()
        ensures
            Self::initial().conforms(model()),
            Self::initial().written_back(model()),
            Self::initial().kind == ABSTRACT_NUMBERING_ID,
    {
        lemma_kind_abstract_numbering_id();
        let dv = Self::descriptor_spec();
        let n = Self::initial();
        assert(n.attributes_fit(model(), true));
        assert(n.slots_fit(model(), true));
        assert(n.children_fit(model()));
    }

    /// What is written of the default is read as the default.
    pub proof fn lemma_default_round_trip(rest: Seq<Tok>)
        ensures
            decode_element_spec(
                model(),
                ABSTRACT_NUMBERING_ID as nat,
                element_tokens(model(), Self::initial()).skip(1) + rest,
            ) == Ok::<_, DecodeError>((Self::initial(), rest)),
    {
        Self::lemma_initial();
        lemma_model_well_formed();
        lemma_round_trip(model(), Self::initial(), rest);
    }
}

/// A reference to a numbering style.
#[derive(Debug, PartialEq)]
pub struct NumStyleLink {
    pub val: String,
}

impl NumStyleLink {
    /// What the mapping knows of the element: its tag, its attributes and
    /// the slots of its children.
    pub open spec fn descriptor_spec() -> DescriptorView {
        DescriptorView {
            tag: NameView { prefix: "w"@, local: "numStyleLink"@ },
            attributes: seq![
                AttributeView {
                    name: NameView { prefix: "w"@, local: "val"@ },
                    codec: Codec::Text,
                    required: true,
                },
            ],
            slots: Seq::empty(),
            content: Content::Children,
        }
    }

    /// What the mapping knows of the element.
    pub fn descriptor() -> (d: Descriptor)
        ensures
            d@ == Self::descriptor_spec(),
    {
        let mut attributes: Vec<Attribute> = Vec::new();
        attributes.push(Attribute::new("w", "val", Codec::Text, true));
        let slots: Vec<Slot> = Vec::new();
        let d = Descriptor {
            tag: Name::new("w", "numStyleLink"),
            attributes,
            slots,
            content: Content::Children,
        };
        proof {
            let want = Self::descriptor_spec();
            assert(d@.attributes =~= want.attributes);
            assert(d@.slots =~= want.slots);
        }
        d
    }

    /// No two attributes of the element have the same name, and no two of its
    /// slots accept the same tag.
    pub proof fn lemma_descriptor_distinct()
        ensures
            Self::descriptor_spec().distinct(),
    {
    }
}

impl Entity for NumStyleLink {
    open spec fn accepts(kind: nat) -> bool {
        kind == NUM_STYLE_LINK
    }

    open spec fn node(&self) -> NodeView {
        NodeView {
            kind: NUM_STYLE_LINK as nat,
            attributes: seq![
                Some(ScalarView::Text(self.val@)),
            ],
            slots: Seq::empty(),
            text: Seq::empty(),
        }
    }

    proof fn lemma_node_conforms(&self) {
        lemma_kind_num_style_link();
        let dv = Self::descriptor_spec();
        let n = self.node();
        assert(n.attributes_fit(model(), true));
        assert(n.slots_fit(model(), true));
        assert(n.children_fit(model()));
    }

    fn to_node(&self) -> (n: Node) {
        let mut attributes: Vec<Option<Scalar>> = Vec::new();
        attributes.push(Some(Scalar::Text(self.val.clone())));
        let slots: Vec<Vec<Node>> = Vec::new();
        let n = Node { kind: NUM_STYLE_LINK, attributes, slots, text: String::new() };
        proof {
            lemma_kind_num_style_link();
            let dv = Self::descriptor_spec();
            let want = self.node();
            assert(n@.attributes =~= want.attributes);
            assert(n@.slots =~= want.slots);
            assert(n@.text =~= want.text);
            self.lemma_node_conforms();
        }
        n
    }

    fn from_node(n: &Node) -> (r: NumStyleLink) {
        proof {
            lemma_kind_num_style_link();
            let dv = Self::descriptor_spec();
            assert(n@.attributes[0] == value_view(n.attributes@[0]));
        }
        let r = NumStyleLink {
            val: match text_of(&n.attributes[0]) {
                Some(v) => v,
                None => String::new(),
            },
        };
        proof {
            let got = r.node();
            assert(got.attributes =~= n@.attributes);
            assert(got.slots =~= n@.slots);
            assert(got.text =~= n@.text);
        }
        r
    }
}

impl Element for NumStyleLink {
    open spec fn tokens(&self) -> Seq<Tok> {
        element_tokens(model(), self.node())
    }

    open spec fn kind_spec() -> nat {
        NUM_STYLE_LINK as nat
    }

    proof fn lemma_kind() {
        lemma_kind_num_style_link();
    }

    fn kind() -> (k: usize) {
        proof {
            lemma_kind_num_style_link();
        }
        NUM_STYLE_LINK
    }

    fn to_writer(&self, sink: &mut Sink) -> (r: Result<(), WriteError>) {
        let schema = schema();
        let node = self.to_node();
        encode_element(&schema, &node, sink)
    }
}

impl NumStyleLink {
    /// The element that the default value stands for.
    pub open spec fn initial() -> NodeView {
        NodeView {
            kind: NUM_STYLE_LINK as nat,
            attributes: seq![Some(ScalarView::Text(Seq::empty()))],
            slots: Seq::empty(),
            text: Seq::empty(),
        }
    }
}

impl Default for NumStyleLink {
    fn default() -> (r: NumStyleLink)
        ensures
            r.node() == Self::initial(),
    {
        let r = NumStyleLink {
            val: String::new(),
        };
        proof {
            let got = r.node();
            let want = Self::initial();
            assert(got.attributes =~= want.attributes);
            assert(got.slots =~= want.slots);
            assert(got.text =~= want.text);
        }
        r
    }
}

impl NumStyleLink {
    /// The default stands for an element of the model, all of which is
    /// written.
    pub proof fn lemma_initial()
        ensures
            Self::initial().conforms(model()),
            Self::initial().written_back(model()),
            Self::initial().kind == NUM_STYLE_LINK,
    {
        lemma_kind_num_style_link();
        let dv = Self::descriptor_spec();
        let n = Self::initial();
        assert(n.attributes_fit(model(), true));
        assert(n.slots_fit(model(), true));
        assert(n.children_fit(model()));
    }

    /// What is written of the default is read as the default.
    pub proof fn lemma_default_round_trip(rest: Seq<Tok>)
        ensures
            decode_element_spec(
                model(),
                NUM_STYLE_LINK as nat,
                element_tokens(model(), Self::initial()).skip(1) + rest,
            ) == Ok::<_, DecodeError>((Self::initial(), rest)),
    {
        Self::lemma_initial();
        lemma_model_well_formed();
        lemma_round_trip(model(), Self::initial(), rest);
    }
}

/// An abstract numbering definition.
#[derive(Debug, PartialEq)]
pub struct AbstractNumbering {
    /// the identifier of the definition
    pub abstract_num_id: usize,
    pub levels: Vec<Level>,
    pub num_style_link: Option<NumStyleLink>,
}

impl AbstractNumbering {
    /// What the mapping knows of the element: its tag, its attributes and
    /// the slots of its children.
    pub open spec fn descriptor_spec() -> DescriptorView {
        DescriptorView {
            tag: NameView { prefix: "w"@, local: "abstractNum"@ },
            attributes: seq![
                AttributeView {
                    name: NameView { prefix: "w"@, local: "abstractNumId"@ },
                    codec: Codec::Unsigned,
                    required: true,
                },
            ],
            slots: seq![
                SlotView {
                    cardinality: Cardinality::Many,
                    alternatives: seq![
                        AlternativeView {
                            tag: NameView { prefix: "w"@, local: "lvl"@ },
                            kind: LEVEL as nat,
                        },
                    ],
                },
                SlotView {
                    cardinality: Cardinality::Optional,
                    alternatives: seq![
                        AlternativeView {
                            tag: NameView { prefix: "w"@, local: "numStyleLink"@ },
                            kind: NUM_STYLE_LINK as nat,
                        },
                    ],
                },
            ],
            content: Content::Children,
        }
    }

    /// What the mapping knows of the element.
    pub fn descriptor() -> (d: Descriptor)
        ensures
            d@ == Self::descriptor_spec(),
    {
        let mut attributes: Vec<Attribute> = Vec::new();
        attributes.push(Attribute::new("w", "abstractNumId", Codec::Unsigned, true));
        let mut slots: Vec<Slot> = Vec::new();
        let mut alternatives0: Vec<Alternative> = Vec::new();
        alternatives0.push(Alternative::new("w", "lvl", LEVEL));
        slots.push(Slot::many(alternatives0));
        slots.push(Slot::one(Cardinality::Optional, "w", "numStyleLink", NUM_STYLE_LINK));
        let d = Descriptor {
            tag: Name::new("w", "abstractNum"),
            attributes,
            slots,
            content: Content::Children,
        };
        proof {
            let want = Self::descriptor_spec();
            assert(d@.attributes =~= want.attributes);
            assert(d@.slots[0].alternatives =~= want.slots[0].alternatives);
            assert(d@.slots[1].alternatives =~= want.slots[1].alternatives);
            assert(d@.slots =~= want.slots);
        }
        d
    }

    /// No two attributes of the element have the same name, and no two of its
    /// slots accept the same tag.
    pub proof fn lemma_descriptor_distinct()
        ensures
            Self::descriptor_spec().distinct(),
    {
        reveal_strlit("abstractNumId");
        reveal_strlit("lvl");
        reveal_strlit("numStyleLink");
        reveal_strlit("w");
        assert("lvl"@.len() != "numStyleLink"@.len());
    }
}

impl Entity for AbstractNumbering {
    open spec fn accepts(kind: nat) -> bool {
        kind == ABSTRACT_NUMBERING
    }

    open spec fn node(&self) -> NodeView {
        NodeView {
            kind: ABSTRACT_NUMBERING as nat,
            attributes: seq![
                Some(ScalarView::Unsigned(self.abstract_num_id)),
            ],
            slots: seq![nodes_of_spec(self.levels@), optional_node(self.num_style_link)],
            text: Seq::empty(),
        }
    }

    proof fn lemma_node_conforms(&self) {
        lemma_kind_abstract_numbering();
        let dv = Self::descriptor_spec();
        let n = self.node();
        assert forall|j: int| 0 <= j < self.levels@.len() implies (#[trigger] self.levels@[j]).node().conforms(
            model(),
        ) && Level::accepts(self.levels@[j].node().kind) by {
            self.levels@[j].lemma_node_conforms();
        }
        match self.num_style_link {
            Some(child) => {
                child.lemma_node_conforms();
            },
            None => {},
        }
        assert(n.attributes_fit(model(), true));
        assert(n.slots_fit(model(), true));
        assert forall|i: int, j: int|
            0 <= i < n.slots.len() && 0 <= j < n.slots[i].len() implies dv.slots[i].accepts(
            (#[trigger] n.slots[i][j]).kind,
        ) by {
            if i == 0 {
                assert(Level::accepts(n.slots[i][j].kind));
                assert(dv.slots[0].alternatives[0].kind == n.slots[i][j].kind);
            } else if i == 1 {
                assert(NumStyleLink::accepts(n.slots[i][j].kind));
                assert(dv.slots[1].alternatives[0].kind == n.slots[i][j].kind);
            }
        }
        assert forall|i: int, j: int|
            0 <= i < n.slots.len() && 0 <= j < n.slots[i].len() implies (#[trigger] n.slots[i][j]).conforms(
            model(),
        ) by {
            if i == 0 {
                assert(n.slots[i][j] == self.levels@[j].node());
            } else if i == 1 {
                assert(n.slots[i][j].conforms(model()));
            }
        }
        assert(n.children_fit(model()));
    }

    fn to_node(&self) -> (n: Node) {
        let mut attributes: Vec<Option<Scalar>> = Vec::new();
        attributes.push(Some(Scalar::Unsigned(self.abstract_num_id)));
        let mut slots: Vec<Vec<Node>> = Vec::new();
        slots.push(nodes_of(&self.levels));
        slots.push(node_of_optional(&self.num_style_link));
        let n = Node { kind: ABSTRACT_NUMBERING, attributes, slots, text: String::new() };
        proof {
            lemma_kind_abstract_numbering();
            let dv = Self::descriptor_spec();
            let want = self.node();
            assert(n@.attributes =~= want.attributes);
            assert(n@.slots[0] =~= want.slots[0]);
            assert(n@.slots[1] =~= want.slots[1]);
            assert(n@.slots =~= want.slots);
            assert(n@.text =~= want.text);
            self.lemma_node_conforms();
        }
        n
    }

    fn from_node(n: &Node) -> (r: AbstractNumbering) {
        proof {
            lemma_kind_abstract_numbering();
            let dv = Self::descriptor_spec();
            assert(n@.attributes[0] == value_view(n.attributes@[0]));
            assert(n@.slots[0].len() == n.slots@[0]@.len());
            assert(n@.slots[1].len() == n.slots@[1]@.len());
            assert forall|j: int| 0 <= j < n.slots[0]@.len() implies (#[trigger] n.slots[0]@[j])@.conforms(
                model(),
            ) && Level::accepts(n.slots[0]@[j]@.kind) by {
                assert(n@.slots[0][j] == n.slots[0]@[j]@);
                assert(dv.slots[0].accepts(n@.slots[0][j].kind));
            }
            assert forall|j: int| 0 <= j < n.slots[1]@.len() implies (#[trigger] n.slots[1]@[j])@.conforms(
                model(),
            ) && NumStyleLink::accepts(n.slots[1]@[j]@.kind) by {
                assert(n@.slots[1][j] == n.slots[1]@[j]@);
                assert(dv.slots[1].accepts(n@.slots[1][j].kind));
            }
        }
        let r = AbstractNumbering {
            abstract_num_id: match unsigned_of(&n.attributes[0]) {
                Some(v) => v,
                None => 0,
            },
            levels: items_of(&n.slots[0]),
            num_style_link: optional_of(&n.slots[1]),
        };
        proof {
            let got = r.node();
            assert(got.attributes =~= n@.attributes);
            assert(got.slots[0] =~= n@.slots[0]);
            assert(got.slots[1] =~= n@.slots[1]);
            assert(got.slots =~= n@.slots);
            assert(got.text =~= n@.text);
        }
        r
    }
}

impl Element for AbstractNumbering {
    open spec fn tokens(&self) -> Seq<Tok> {
        element_tokens(model(), self.node())
    }

    open spec fn kind_spec() -> nat {
        ABSTRACT_NUMBERING as nat
    }

    proof fn lemma_kind() {
        lemma_kind_abstract_numbering();
    }

    fn kind() -> (k: usize) {
        proof {
            lemma_kind_abstract_numbering();
        }
        ABSTRACT_NUMBERING
    }

    fn to_writer(&self, sink: &mut Sink) -> (r: Result<(), WriteError>) {
        let schema = schema();
        let node = self.to_node();
        encode_element(&schema, &node, sink)
    }
}

impl AbstractNumbering {
    /// The element that the default value stands for.
    pub open spec fn initial() -> NodeView {
        NodeView {
            kind: ABSTRACT_NUMBERING as nat,
            attributes: seq![Some(ScalarView::Unsigned(0))],
            slots: seq![Seq::empty(), Seq::empty()],
            text: Seq::empty(),
        }
    }
}

impl Default for AbstractNumbering {
    fn default() -> (r: AbstractNumbering)
        ensures
            r.node() == Self::initial(),
    {
        let r = AbstractNumbering {
            abstract_num_id: 0,
            levels: Vec::new(),
            num_style_link: None,
        };
        proof {
            let got = r.node();
            let want = Self::initial();
            assert(got.attributes =~= want.attributes);
            assert(got.slots[0] =~= want.slots[0]);
            assert(got.slots[1] =~= want.slots[1]);
            assert(got.slots =~= want.slots);
            assert(got.text =~= want.text);
        }
        r
    }
}

impl AbstractNumbering {
    /// The default stands for an element of the model, all of which is
    /// written.
    pub proof fn lemma_initial()
        ensures
            Self::initial().conforms(model()),
            Self::initial().written_back(model()),
            Self::initial().kind == ABSTRACT_NUMBERING,
    {
        lemma_kind_abstract_numbering();
        let dv = Self::descriptor_spec();
        let n = Self::initial();
        assert(n.attributes_fit(model(), true));
        assert(n.slots_fit(model(), true));
        assert forall|i: int, j: int|
            0 <= i < n.slots.len() && 0 <= j < n.slots[i].len() implies dv.slots[i].accepts(
            (#[trigger] n.slots[i][j]).kind,
        ) by {
        }
        assert(n.children_fit(model()));
    }

    /// What is written of the default is read as the default.
    pub proof fn lemma_default_round_trip(rest: Seq<Tok>)
        ensures
            decode_element_spec(
                model(),
                ABSTRACT_NUMBERING as nat,
                element_tokens(model(), Self::initial()).skip(1) + rest,
            ) == Ok::<_, DecodeError>((Self::initial(), rest)),
    {
        Self::lemma_initial();
        lemma_model_well_formed();
        lemma_round_trip(model(), Self::initial(), rest);
    }
}

/// A numbering definition instance.
#[derive(Debug, PartialEq)]
pub struct Numbering {
    /// the identifier of the instance
    pub num_id: usize,
    /// the abstract definition that the instance uses
    pub abstract_num_id: AbstractNumberingId,
}

impl Numbering {
    /// What the mapping knows of the element: its tag, its attributes and
    /// the slots of its children.
    pub open spec fn descriptor_spec() -> DescriptorView {
        DescriptorView {
            tag: NameView { prefix: "w"@, local: "num"@ },
            attributes: seq![
                AttributeView {
                    name: NameView { prefix: "w"@, local: "numId"@ },
                    codec: Codec::Unsigned,
                    required: true,
                },
            ],
            slots: seq![
                SlotView {
                    cardinality: Cardinality::Required,
                    alternatives: seq![
                        AlternativeView {
                            tag: NameView { prefix: "w"@, local: "abstractNumId"@ },
                            kind: ABSTRACT_NUMBERING_ID as nat,
                        },
                    ],
                },
            ],
            content: Content::Children,
        }
    }

    /// What the mapping knows of the element.
    pub fn descriptor() -> (d: Descriptor)
        ensures
            d@ == Self::descriptor_spec(),
    {
        let mut attributes: Vec<Attribute> = Vec::new();
        attributes.push(Attribute::new("w", "numId", Codec::Unsigned, true));
        let mut slots: Vec<Slot> = Vec::new();
        slots.push(Slot::one(Cardinality::Required, "w", "abstractNumId", ABSTRACT_NUMBERING_ID));
        let d = Descriptor {
            tag: Name::new("w", "num"),
            attributes,
            slots,
            content: Content::Children,
        };
        proof {
            let want = Self::descriptor_spec();
            assert(d@.attributes =~= want.attributes);
            assert(d@.slots[0].alternatives =~= want.slots[0].alternatives);
            assert(d@.slots =~= want.slots);
        }
        d
    }

    /// No two attributes of the element have the same name, and no two of its
    /// slots accept the same tag.
    pub proof fn lemma_descriptor_distinct()
        ensures
            Self::descriptor_spec().distinct(),
    {
    }
}

impl Entity for Numbering {
    open spec fn accepts(kind: nat) -> bool {
        kind == NUMBERING
    }

    open spec fn node(&self) -> NodeView {
        NodeView {
            kind: NUMBERING as nat,
            attributes: seq![
                Some(ScalarView::Unsigned(self.num_id)),
            ],
            slots: seq![seq![self.abstract_num_id.node()]],
            text: Seq::empty(),
        }
    }

    proof fn lemma_node_conforms(&self) {
        lemma_kind_numbering();
        let dv = Self::descriptor_spec();
        let n = self.node();
        self.abstract_num_id.lemma_node_conforms();
        assert(n.attributes_fit(model(), true));
        assert(n.slots_fit(model(), true));
        assert forall|i: int, j: int|
            0 <= i < n.slots.len() && 0 <= j < n.slots[i].len() implies dv.slots[i].accepts(
            (#[trigger] n.slots[i][j]).kind,
        ) by {
            if i == 0 {
                assert(AbstractNumberingId::accepts(n.slots[i][j].kind));
                assert(dv.slots[0].alternatives[0].kind == n.slots[i][j].kind);
            }
        }
        assert forall|i: int, j: int|
            0 <= i < n.slots.len() && 0 <= j < n.slots[i].len() implies (#[trigger] n.slots[i][j]).conforms(
            model(),
        ) by {
            if i == 0 {
                assert(n.slots[i][j].conforms(model()));
            }
        }
        assert(n.children_fit(model()));
    }

    fn to_node(&self) -> (n: Node) {
        let mut attributes: Vec<Option<Scalar>> = Vec::new();
        attributes.push(Some(Scalar::Unsigned(self.num_id)));
        let mut slots: Vec<Vec<Node>> = Vec::new();
        slots.push(node_of_one(&self.abstract_num_id));
        let n = Node { kind: NUMBERING, attributes, slots, text: String::new() };
        proof {
            lemma_kind_numbering();
            let dv = Self::descriptor_spec();
            let want = self.node();
            assert(n@.attributes =~= want.attributes);
            assert(n@.slots[0] =~= want.slots[0]);
            assert(n@.slots =~= want.slots);
            assert(n@.text =~= want.text);
            self.lemma_node_conforms();
        }
        n
    }

    fn from_node(n: &Node) -> (r: Numbering) {
        proof {
            lemma_kind_numbering();
            let dv = Self::descriptor_spec();
            assert(n@.attributes[0] == value_view(n.attributes@[0]));
            assert(n@.slots[0].len() == n.slots@[0]@.len());
            assert forall|j: int| 0 <= j < n.slots[0]@.len() implies (#[trigger] n.slots[0]@[j])@.conforms(
                model(),
            ) && AbstractNumberingId::accepts(n.slots[0]@[j]@.kind) by {
                assert(n@.slots[0][j] == n.slots[0]@[j]@);
                assert(dv.slots[0].accepts(n@.slots[0][j].kind));
            }
        }
        let r = Numbering {
            num_id: match unsigned_of(&n.attributes[0]) {
                Some(v) => v,
                None => 0,
            },
            abstract_num_id: AbstractNumberingId::from_node(&n.slots[0][0]),
        };
        proof {
            let got = r.node();
            assert(got.attributes =~= n@.attributes);
            assert(got.slots[0] =~= n@.slots[0]);
            assert(got.slots =~= n@.slots);
            assert(got.text =~= n@.text);
        }
        r
    }
}

impl Element for Numbering {
    open spec fn tokens(&self) -> Seq<Tok> {
        element_tokens(model(), self.node())
    }

    open spec fn kind_spec() -> nat {
        NUMBERING as nat
    }

    proof fn lemma_kind() {
        lemma_kind_numbering();
    }

    fn kind() -> (k: usize) {
        proof {
            lemma_kind_numbering();
        }
        NUMBERING
    }

    fn to_writer(&self, sink: &mut Sink) -> (r: Result<(), WriteError>) {
        let schema = schema();
        let node = self.to_node();
        encode_element(&schema, &node, sink)
    }
}

impl Numbering {
    /// The element that the default value stands for.
    pub open spec fn initial() -> NodeView {
        NodeView {
            kind: NUMBERING as nat,
            attributes: seq![Some(ScalarView::Unsigned(0))],
            slots: seq![seq![AbstractNumberingId::initial()]],
            text: Seq::empty(),
        }
    }
}

impl Default for Numbering {
    fn default() -> (r: Numbering)
        ensures
            r.node() == Self::initial(),
    {
        let r = Numbering {
            num_id: 0,
            abstract_num_id: AbstractNumberingId::default(),
        };
        proof {
            let got = r.node();
            let want = Self::initial();
            assert(got.attributes =~= want.attributes);
            assert(got.slots[0] =~= want.slots[0]);
            assert(got.slots =~= want.slots);
            assert(got.text =~= want.text);
        }
        r
    }
}

impl Numbering {
    /// The default stands for an element of the model, all of which is
    /// written.
    pub proof fn lemma_initial()
        ensures
            Self::initial().conforms(model()),
            Self::initial().written_back(model()),
            Self::initial().kind == NUMBERING,
    {
        lemma_kind_numbering();
        let dv = Self::descriptor_spec();
        let n = Self::initial();
        AbstractNumberingId::lemma_initial();
        assert(n.attributes_fit(model(), true));
        assert(n.slots_fit(model(), true));
        assert forall|i: int, j: int|
            0 <= i < n.slots.len() && 0 <= j < n.slots[i].len() implies dv.slots[i].accepts(
            (#[trigger] n.slots[i][j]).kind,
        ) by {
            if i == 0 {
                assert(dv.slots[0].alternatives[0].kind == n.slots[i][j].kind);
            }
        }
        assert(n.children_fit(model()));
    }

    /// What is written of the default is read as the default.
    pub proof fn lemma_default_round_trip(rest: Seq<Tok>)
        ensures
            decode_element_spec(
                model(),
                NUMBERING as nat,
                element_tokens(model(), Self::initial()).skip(1) + rest,
            ) == Ok::<_, DecodeError>((Self::initial(), rest)),
    {
        Self::lemma_initial();
        lemma_model_well_formed();
        lemma_round_trip(model(), Self::initial(), rest);
    }
}

/// The root element of the numbering part.
#[derive(Debug, PartialEq)]
pub struct Numberings {
    pub abstract_nums: Vec<AbstractNumbering>,
    pub nums: Vec<Numbering>,
}

impl Numberings {
    /// What the mapping knows of the element: its tag, its attributes and
    /// the slots of its children.
    pub open spec fn descriptor_spec() -> DescriptorView {
        DescriptorView {
            tag: NameView { prefix: "w"@, local: "numbering"@ },
            attributes: Seq::empty(),
            slots: seq![
                SlotView {
                    cardinality: Cardinality::Many,
                    alternatives: seq![
                        AlternativeView {
                            tag: NameView { prefix: "w"@, local: "abstractNum"@ },
                            kind: ABSTRACT_NUMBERING as nat,
                        },
                    ],
                },
                SlotView {
                    cardinality: Cardinality::Many,
                    alternatives: seq![
                        AlternativeView {
                            tag: NameView { prefix: "w"@, local: "num"@ },
                            kind: NUMBERING as nat,
                        },
                    ],
                },
            ],
            content: Content::Children,
        }
    }

    /// What the mapping knows of the element.
    pub fn descriptor() -> (d: Descriptor)
        ensures
            d@ == Self::descriptor_spec(),
    {
        let attributes: Vec<Attribute> = Vec::new();
        let mut slots: Vec<Slot> = Vec::new();
        let mut alternatives0: Vec<Alternative> = Vec::new();
        alternatives0.push(Alternative::new("w", "abstractNum", ABSTRACT_NUMBERING));
        slots.push(Slot::many(alternatives0));
        let mut alternatives1: Vec<Alternative> = Vec::new();
        alternatives1.push(Alternative::new("w", "num", NUMBERING));
        slots.push(Slot::many(alternatives1));
        let d = Descriptor {
            tag: Name::new("w", "numbering"),
            attributes,
            slots,
            content: Content::Children,
        };
        proof {
            let want = Self::descriptor_spec();
            assert(d@.attributes =~= want.attributes);
            assert(d@.slots[0].alternatives =~= want.slots[0].alternatives);
            assert(d@.slots[1].alternatives =~= want.slots[1].alternatives);
            assert(d@.slots =~= want.slots);
        }
        d
    }

    /// No two attributes of the element have the same name, and no two of its
    /// slots accept the same tag.
    pub proof fn lemma_descriptor_distinct()
        ensures
            Self::descriptor_spec().distinct(),
    {
        reveal_strlit("abstractNum");
        reveal_strlit("num");
        reveal_strlit("w");
        assert("abstractNum"@.len() != "num"@.len());
    }
}

impl Entity for Numberings {
    open spec fn accepts(kind: nat) -> bool {
        kind == NUMBERINGS
    }

    open spec fn node(&self) -> NodeView {
        NodeView {
            kind: NUMBERINGS as nat,
            attributes: Seq::empty(),
            slots: seq![nodes_of_spec(self.abstract_nums@), nodes_of_spec(self.nums@)],
            text: Seq::empty(),
        }
    }

    proof fn lemma_node_conforms(&self) {
        lemma_kind_numberings();
        let dv = Self::descriptor_spec();
        let n = self.node();
        assert forall|j: int| 0 <= j < self.abstract_nums@.len() implies (#[trigger] self.abstract_nums@[j]).node().conforms(
            model(),
        ) && AbstractNumbering::accepts(self.abstract_nums@[j].node().kind) by {
            self.abstract_nums@[j].lemma_node_conforms();
        }
        assert forall|j: int| 0 <= j < self.nums@.len() implies (#[trigger] self.nums@[j]).node().conforms(
            model(),
        ) && Numbering::accepts(self.nums@[j].node().kind) by {
            self.nums@[j].lemma_node_conforms();
        }
        assert(n.attributes_fit(model(), true));
        assert(n.slots_fit(model(), true));
        assert forall|i: int, j: int|
            0 <= i < n.slots.len() && 0 <= j < n.slots[i].len() implies dv.slots[i].accepts(
            (#[trigger] n.slots[i][j]).kind,
        ) by {
            if i == 0 {
                assert(AbstractNumbering::accepts(n.slots[i][j].kind));
                assert(dv.slots[0].alternatives[0].kind == n.slots[i][j].kind);
            } else if i == 1 {
                assert(Numbering::accepts(n.slots[i][j].kind));
                assert(dv.slots[1].alternatives[0].kind == n.slots[i][j].kind);
            }
        }
        assert forall|i: int, j: int|
            0 <= i < n.slots.len() && 0 <= j < n.slots[i].len() implies (#[trigger] n.slots[i][j]).conforms(
            model(),
        ) by {
            if i == 0 {
                assert(n.slots[i][j] == self.abstract_nums@[j].node());
            } else if i == 1 {
                assert(n.slots[i][j] == self.nums@[j].node());
            }
        }
        assert(n.children_fit(model()));
    }

    fn to_node(&self) -> (n: Node) {
        let attributes: Vec<Option<Scalar>> = Vec::new();
        let mut slots: Vec<Vec<Node>> = Vec::new();
        slots.push(nodes_of(&self.abstract_nums));
        slots.push(nodes_of(&self.nums));
        let n = Node { kind: NUMBERINGS, attributes, slots, text: String::new() };
        proof {
            lemma_kind_numberings();
            let dv = Self::descriptor_spec();
            let want = self.node();
            assert(n@.attributes =~= want.attributes);
            assert(n@.slots[0] =~= want.slots[0]);
            assert(n@.slots[1] =~= want.slots[1]);
            assert(n@.slots =~= want.slots);
            assert(n@.text =~= want.text);
            self.lemma_node_conforms();
        }
        n
    }

    fn from_node(n: &Node) -> (r: Numberings) {
        proof {
            lemma_kind_numberings();
            let dv = Self::descriptor_spec();
            assert(n@.slots[0].len() == n.slots@[0]@.len());
            assert(n@.slots[1].len() == n.slots@[1]@.len());
            assert forall|j: int| 0 <= j < n.slots[0]@.len() implies (#[trigger] n.slots[0]@[j])@.conforms(
                model(),
            ) && AbstractNumbering::accepts(n.slots[0]@[j]@.kind) by {
                assert(n@.slots[0][j] == n.slots[0]@[j]@);
                assert(dv.slots[0].accepts(n@.slots[0][j].kind));
            }
            assert forall|j: int| 0 <= j < n.slots[1]@.len() implies (#[trigger] n.slots[1]@[j])@.conforms(
                model(),
            ) && Numbering::accepts(n.slots[1]@[j]@.kind) by {
                assert(n@.slots[1][j] == n.slots[1]@[j]@);
                assert(dv.slots[1].accepts(n@.slots[1][j].kind));
            }
        }
        let r = Numberings {
            abstract_nums: items_of(&n.slots[0]),
            nums: items_of(&n.slots[1]),
        };
        proof {
            let got = r.node();
            assert(got.attributes =~= n@.attributes);
            assert(got.slots[0] =~= n@.slots[0]);
            assert(got.slots[1] =~= n@.slots[1]);
            assert(got.slots =~= n@.slots);
            assert(got.text =~= n@.text);
        }
        r
    }
}

impl Element for Numberings {
    /// The root element with the declaration of the namespace as its one
    /// attribute, and its children inside.
    open spec fn tokens(&self) -> Seq<Tok> {
        root_tokens(Self::descriptor_spec().tag, slots_tokens(model(), self.node().slots))
    }

    fn to_writer(&self, sink: &mut Sink) -> (r: Result<(), WriteError>) {
        let schema = schema();
        let node = self.to_node();
        proof {
            lemma_kind_numberings();
        }
        encode_root(&schema, &node, sink)
    }

    open spec fn kind_spec() -> nat {
        NUMBERINGS as nat
    }

    proof fn lemma_kind() {
        lemma_kind_numberings();
    }

    fn kind() -> (k: usize) {
        proof {
            lemma_kind_numberings();
        }
        NUMBERINGS
    }

}

impl Numberings {
    /// What is written of the part, the declaration of the namespace
    /// included, is read as that part, whatever stands behind it.
    pub proof fn lemma_tokens_round_trip(&self, rest: Seq<Tok>)
        requires
            self.node().written_back(model()),
        ensures
            decode_root_spec(model(), NUMBERINGS as nat, self.tokens() + rest) == Ok::<_, DecodeError>(
                self.node(),
            ),
    {
        self.lemma_node_conforms();
        lemma_kind_numberings();
        lemma_model_well_formed();
        lemma_declared_root_round_trip(model(), self.node(), rest);
    }

    /// Of what is written of the part one token declares the namespace: the
    /// one attribute of the root element.
    pub proof fn lemma_namespace_once(&self)
        ensures
            forall|k: int|
                0 <= k < self.tokens().len() ==> (is_declaration(#[trigger] self.tokens()[k])
                    <==> k == 1),
    {
        self.lemma_node_conforms();
        lemma_kind_numberings();
        lemma_model_declares_nothing();
        lemma_root_declares_once(model(), self.node());
    }
}

impl Numberings {
    /// The element that the default value stands for.
    pub open spec fn initial() -> NodeView {
        NodeView {
            kind: NUMBERINGS as nat,
            attributes: Seq::empty(),
            slots: seq![Seq::empty(), Seq::empty()],
            text: Seq::empty(),
        }
    }
}

impl Default for Numberings {
    fn default() -> (r: Numberings)
        ensures
            r.node() == Self::initial(),
    {
        let r = Numberings {
            abstract_nums: Vec::new(),
            nums: Vec::new(),
        };
        proof {
            let got = r.node();
            let want = Self::initial();
            assert(got.attributes =~= want.attributes);
            assert(got.slots[0] =~= want.slots[0]);
            assert(got.slots[1] =~= want.slots[1]);
            assert(got.slots =~= want.slots);
            assert(got.text =~= want.text);
        }
        r
    }
}

impl Numberings {
    /// The default stands for an element of the model, all of which is
    /// written.
    pub proof fn lemma_initial()
        ensures
            Self::initial().conforms(model()),
            Self::initial().written_back(model()),
            Self::initial().kind == NUMBERINGS,
    {
        lemma_kind_numberings();
        let dv = Self::descriptor_spec();
        let n = Self::initial();
        assert(n.attributes_fit(model(), true));
        assert(n.slots_fit(model(), true));
        assert forall|i: int, j: int|
            0 <= i < n.slots.len() && 0 <= j < n.slots[i].len() implies dv.slots[i].accepts(
            (#[trigger] n.slots[i][j]).kind,
        ) by {
        }
        assert(n.children_fit(model()));
    }

    /// What is written of the default is read as the default.
    pub proof fn lemma_default_round_trip(rest: Seq<Tok>)
        ensures
            decode_element_spec(
                model(),
                NUMBERINGS as nat,
                element_tokens(model(), Self::initial()).skip(1) + rest,
            ) == Ok::<_, DecodeError>((Self::initial(), rest)),
    {
        Self::lemma_initial();
        lemma_model_well_formed();
        lemma_round_trip(model(), Self::initial(), rest);
    }
}

} // verus!
