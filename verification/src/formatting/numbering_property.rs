//! That a paragraph is numbered, and how.

use crate::catalog::{
    lemma_kind_numbering_property, lemma_model_well_formed, model, schema, INDENT_LEVEL,
    NUMBERING_ID, NUMBERING_PROPERTY,
};
use crate::decode::decode_element_spec;
use crate::encode::{element_tokens, encode_element};
use crate::entity::{node_of_optional, optional_node, optional_of, Element, Entity};
use crate::error::{DecodeError, WriteError};
use crate::formatting::indent_level::IndentLevel;
use crate::formatting::numbering_id::NumberingId;
use crate::laws::lemma_round_trip;
use crate::node::{Node, NodeView, Scalar};
use crate::schema::{
    AlternativeView, Attribute, Cardinality, Content, Descriptor, DescriptorView, Name, NameView,
    Slot, SlotView,
};
use crate::token::Tok;
use crate::writer::Sink;
use vstd::prelude::*;

verus! {

/// That a paragraph is numbered, and how.
#[derive(Clone, Copy, Debug, PartialEq)]
pub struct NumberingProperty {
    /// a reference to a numbering definition
    pub id: Option<NumberingId>,
    /// the level of the definition to use
    pub level: Option<IndentLevel>,
}

impl NumberingProperty {
    /// What the mapping knows of the element: its tag, its attributes and
    /// the slots of its children.
    pub open spec fn descriptor_spec() -> DescriptorView {
        DescriptorView {
            tag: NameView { prefix: "w"@, local: "numPr"@ },
            attributes: Seq::empty(),
            slots: seq![
                SlotView {
                    cardinality: Cardinality::Optional,
                    alternatives: seq![
                        AlternativeView {
                            tag: NameView { prefix: "w"@, local: "numId"@ },
                            kind: NUMBERING_ID as nat,
                        },
                    ],
                },
                SlotView {
                    cardinality: Cardinality::Optional,
                    alternatives: seq![
                        AlternativeView {
                            tag: NameView { prefix: "w"@, local: "ilvl"@ },
                            kind: INDENT_LEVEL as nat,
                        },
                    ],
                },
            ],
            content: Content::Children,
        }
    }

    /// What the mapping knows of the element.
    pub fn descriptor() -> (d: Descriptor)
        ensures
            d@ == Self::descriptor_spec(),
    {
        let attributes: Vec<Attribute> = Vec::new();
        let mut slots: Vec<Slot> = Vec::new();
        slots.push(Slot::one(Cardinality::Optional, "w", "numId", NUMBERING_ID));
        slots.push(Slot::one(Cardinality::Optional, "w", "ilvl", INDENT_LEVEL));
        let d = Descriptor {
            tag: Name::new("w", "numPr"),
            attributes,
            slots,
            content: Content::Children,
        };
        proof {
            let want = Self::descriptor_spec();
            assert(d@.attributes =~= want.attributes);
            assert(d@.slots[0].alternatives =~= want.slots[0].alternatives);
            assert(d@.slots[1].alternatives =~= want.slots[1].alternatives);
            assert(d@.slots =~= want.slots);
        }
        d
    }

    /// No two attributes of the element have the same name, and no two of its
    /// slots accept the same tag.
    pub proof fn lemma_descriptor_distinct()
        ensures
            Self::descriptor_spec().distinct(),
    {
        reveal_strlit("ilvl");
        reveal_strlit("numId");
        reveal_strlit("w");
        assert("numId"@.len() != "ilvl"@.len());
    }
}

impl Entity for NumberingProperty {
    open spec fn accepts(kind: nat) -> bool {
        kind == NUMBERING_PROPERTY
    }

    open spec fn node(&self) -> NodeView {
        NodeView {
            kind: NUMBERING_PROPERTY as nat,
            attributes: Seq::empty(),
            slots: seq![optional_node(self.id), optional_node(self.level)],
            text: Seq::empty(),
        }
    }

    proof fn lemma_node_conforms(&self) {
        lemma_kind_numbering_property();
        let dv = Self::descriptor_spec();
        let n = self.node();
        match self.id {
            Some(child) => {
                child.lemma_node_conforms();
            },
            None => {},
        }
        match self.level {
            Some(child) => {
                child.lemma_node_conforms();
            },
            None => {},
        }
        assert(n.attributes_fit(model(), true));
        assert(n.slots_fit(model(), true));
        assert forall|i: int, j: int|
            0 <= i < n.slots.len() && 0 <= j < n.slots[i].len() implies dv.slots[i].accepts(
            (#[trigger] n.slots[i][j]).kind,
        ) by {
            if i == 0 {
                assert(NumberingId::accepts(n.slots[i][j].kind));
                assert(dv.slots[0].alternatives[0].kind == n.slots[i][j].kind);
            } else if i == 1 {
                assert(IndentLevel::accepts(n.slots[i][j].kind));
                assert(dv.slots[1].alternatives[0].kind == n.slots[i][j].kind);
            }
        }
        assert forall|i: int, j: int|
            0 <= i < n.slots.len() && 0 <= j < n.slots[i].len() implies (#[trigger] n.slots[i][j]).conforms(
            model(),
        ) by {
            if i == 0 {
                assert(n.slots[i][j].conforms(model()));
            } else if i == 1 {
                assert(n.slots[i][j].conforms(model()));
            }
        }
        assert(n.children_fit(model()));
    }

    fn to_node(&self) -> (n: Node) {
        let attributes: Vec<Option<Scalar>> = Vec::new();
        let mut slots: Vec<Vec<Node>> = Vec::new();
        slots.push(node_of_optional(&self.id));
        slots.push(node_of_optional(&self.level));
        let n = Node { kind: NUMBERING_PROPERTY, attributes, slots, text: String::new() };
        proof {
            lemma_kind_numbering_property();
            let dv = Self::descriptor_spec();
            let want = self.node();
            assert(n@.attributes =~= want.attributes);
            assert(n@.slots[0] =~= want.slots[0]);
            assert(n@.slots[1] =~= want.slots[1]);
            assert(n@.slots =~= want.slots);
            assert(n@.text =~= want.text);
            self.lemma_node_conforms();
        }
        n
    }

    fn from_node(n: &Node) -> (r: NumberingProperty) {
        proof {
            lemma_kind_numbering_property();
            let dv = Self::descriptor_spec();
            assert(n@.slots[0].len() == n.slots@[0]@.len());
            assert(n@.slots[1].len() == n.slots@[1]@.len());
            assert forall|j: int| 0 <= j < n.slots[0]@.len() implies (#[trigger] n.slots[0]@[j])@.conforms(
                model(),
            ) && NumberingId::accepts(n.slots[0]@[j]@.kind) by {
                assert(n@.slots[0][j] == n.slots[0]@[j]@);
                assert(dv.slots[0].accepts(n@.slots[0][j].kind));
            }
            assert forall|j: int| 0 <= j < n.slots[1]@.len() implies (#[trigger] n.slots[1]@[j])@.conforms(
                model(),
            ) && IndentLevel::accepts(n.slots[1]@[j]@.kind) by {
                assert(n@.slots[1][j] == n.slots[1]@[j]@);
                assert(dv.slots[1].accepts(n@.slots[1][j].kind));
            }
        }
        let r = NumberingProperty {
            id: optional_of(&n.slots[0]),
            level: optional_of(&n.slots[1]),
        };
        proof {
            let got = r.node();
            assert(got.attributes =~= n@.attributes);
            assert(got.slots[0] =~= n@.slots[0]);
            assert(got.slots[1] =~= n@.slots[1]);
            assert(got.slots =~= n@.slots);
            assert(got.text =~= n@.text);
        }
        r
    }
}

impl Element for NumberingProperty {
    open spec fn tokens(&self) -> Seq<Tok> {
        element_tokens(model(), self.node())
    }

    open spec fn kind_spec() -> nat {
        NUMBERING_PROPERTY as nat
    }

    proof fn lemma_kind() {
        lemma_kind_numbering_property();
    }

    fn kind() -> (k: usize) {
        proof {
            lemma_kind_numbering_property();
        }
        NUMBERING_PROPERTY
    }

    fn to_writer(&self, sink: &mut Sink) -> (r: Result<(), WriteError>) {
        let schema = schema();
        let node = self.to_node();
        encode_element(&schema, &node, sink)
    }
}

impl NumberingProperty {
    /// The element that the default value stands for.
    pub open spec fn initial() -> NodeView {
        NodeView {
            kind: NUMBERING_PROPERTY as nat,
            attributes: Seq::empty(),
            slots: seq![Seq::empty(), Seq::empty()],
            text: Seq::empty(),
        }
    }
}

impl Default for NumberingProperty {
    fn default() -> (r: NumberingProperty)
        ensures
            r.node() == Self::initial(),
    {
        let r = NumberingProperty {
            id: None,
            level: None,
        };
        proof {
            let got = r.node();
            let want = Self::initial();
            assert(got.attributes =~= want.attributes);
            assert(got.slots[0] =~= want.slots[0]);
            assert(got.slots[1] =~= want.slots[1]);
            assert(got.slots =~= want.slots);
            assert(got.text =~= want.text);
        }
        r
    }
}

impl NumberingProperty {
    /// The default stands for an element of the model, all of which is
    /// written.
    pub proof fn lemma_initial()
        ensures
            Self::initial().conforms(model()),
            Self::initial().written_back(model()),
            Self::initial().kind == NUMBERING_PROPERTY,
    {
        lemma_kind_numbering_property();
        let dv = Self::descriptor_spec();
        let n = Self::initial();
        assert(n.attributes_fit(model(), true));
        assert(n.slots_fit(model(), true));
        assert forall|i: int, j: int|
            0 <= i < n.slots.len() && 0 <= j < n.slots[i].len() implies dv.slots[i].accepts(
            (#[trigger] n.slots[i][j]).kind,
        ) by {
        }
        assert(n.children_fit(model()));
    }

    /// What is written of the default is read as the default.
    pub proof fn lemma_default_round_trip(rest: Seq<Tok>)
        ensures
            decode_element_spec(
                model(),
                NUMBERING_PROPERTY as nat,
                element_tokens(model(), Self::initial()).skip(1) + rest,
            ) == Ok::<_, DecodeError>((Self::initial(), rest)),
    {
        Self::lemma_initial();
        lemma_model_well_formed();
        lemma_round_trip(model(), Self::initial(), rest);
    }
}

impl From<(usize, usize)> for NumberingProperty {
    /// The numbering of the definition `val.0` at the level `val.1`.
    fn from(val: (usize, usize)) -> (r: NumberingProperty) {
        NumberingProperty {
            id: Some(NumberingId { value: val.0 }),
            level: Some(IndentLevel { value: val.1 }),
        }
    }
}

impl vstd::std_specs::convert::FromSpecImpl<(usize, usize)> for NumberingProperty {
    open spec fn obeys_from_spec() -> bool {
        true
    }

    open spec fn from_spec(val: (usize, usize)) -> NumberingProperty {
        NumberingProperty {
            id: Some(NumberingId { value: val.0 }),
            level: Some(IndentLevel { value: val.1 }),
        }
    }
}

} // verus!
