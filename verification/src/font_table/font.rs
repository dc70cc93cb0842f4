//! One font of the font table.

use crate::catalog::{lemma_kind_font, lemma_model_well_formed, model, schema, FAMILY, FONT, PITCH};
use crate::decode::decode_element_spec;
use crate::encode::{element_tokens, encode_element};
use crate::entity::{node_of_optional, optional_node, optional_of, text_of, Element, Entity};
use crate::error::{DecodeError, WriteError};
use crate::font_table::family::Family;
use crate::font_table::pitch::Pitch;
use crate::laws::lemma_round_trip;
use crate::node::{value_view, Node, NodeView, Scalar, ScalarView};
use crate::schema::{
    AlternativeView, Attribute, AttributeView, Cardinality, Codec, Content, Descriptor,
    DescriptorView, Name, NameView, Slot, SlotView,
};
use crate::token::Tok;
use crate::writer::Sink;
use vstd::prelude::*;

verus! {

/// One font of the font table.
#[derive(Debug, PartialEq)]
pub struct Font {
    /// the name of the font
    pub name: String,
    pub family: Option<Family>,
    pub pitch: Option<Pitch>,
}

impl Font {
    /// What the mapping knows of the element: its tag, its attributes and
    /// the slots of its children.
    pub open spec fn descriptor_spec() -> DescriptorView {
        DescriptorView {
            tag: NameView { prefix: "w"@, local: "font"@ },
            attributes: seq![
                AttributeView {
                    name: NameView { prefix: "w"@, local: "name"@ },
                    codec: Codec::Text,
                    required: true,
                },
            ],
            slots: seq![
                SlotView {
                    cardinality: Cardinality::Optional,
                    alternatives: seq![
                        AlternativeView {
                            tag: NameView { prefix: "w"@, local: "family"@ },
                            kind: FAMILY as nat,
                        },
                    ],
                },
                SlotView {
                    cardinality: Cardinality::Optional,
                    alternatives: seq![
                        AlternativeView {
                            tag: NameView { prefix: "w"@, local: "pitch"@ },
                            kind: PITCH as nat,
                        },
                    ],
                },
            ],
            content: Content::Children,
        }
    }

    /// What the mapping knows of the element.
    pub fn descriptor() -> (d: Descriptor)
        ensures
            d@ == Self::descriptor_spec(),
    {
        let mut attributes: Vec<Attribute> = Vec::new();
        attributes.push(Attribute::new("w", "name", Codec::Text, true));
        let mut slots: Vec<Slot> = Vec::new();
        slots.push(Slot::one(Cardinality::Optional, "w", "family", FAMILY));
        slots.push(Slot::one(Cardinality::Optional, "w", "pitch", PITCH));
        let d = Descriptor {
            tag: Name::new("w", "font"),
            attributes,
            slots,
            content: Content::Children,
        };
        proof {
            let want = Self::descriptor_spec();
            assert(d@.attributes =~= want.attributes);
            assert(d@.slots[0].alternatives =~= want.slots[0].alternatives);
            assert(d@.slots[1].alternatives =~= want.slots[1].alternatives);
            assert(d@.slots =~= want.slots);
        }
        d
    }

    /// No two attributes of the element have the same name, and no two of its
    /// slots accept the same tag.
    pub proof fn lemma_descriptor_distinct()
        ensures
            Self::descriptor_spec().distinct(),
    {
        reveal_strlit("family");
        reveal_strlit("name");
        reveal_strlit("pitch");
        reveal_strlit("w");
        assert("family"@.len() != "pitch"@.len());
    }
}

impl Entity for Font {
    open spec fn accepts(kind: nat) -> bool {
        kind == FONT
    }

    open spec fn node(&self) -> NodeView {
        NodeView {
            kind: FONT as nat,
            attributes: seq![
                Some(ScalarView::Text(self.name@)),
            ],
            slots: seq![optional_node(self.family), optional_node(self.pitch)],
            text: Seq::empty(),
        }
    }

    proof fn lemma_node_conforms(&self) {
        lemma_kind_font();
        let dv = Self::descriptor_spec();
        let n = self.node();
        match self.family {
            Some(child) => {
                child.lemma_node_conforms();
            },
            None => {},
        }
        match self.pitch {
            Some(child) => {
                child.lemma_node_conforms();
            },
            None => {},
        }
        assert(n.attributes_fit(model(), true));
        assert(n.slots_fit(model(), true));
        assert forall|i: int, j: int|
            0 <= i < n.slots.len() && 0 <= j < n.slots[i].len() implies dv.slots[i].accepts(
            (#[trigger] n.slots[i][j]).kind,
        ) by {
            if i == 0 {
                assert(Family::accepts(n.slots[i][j].kind));
                assert(dv.slots[0].alternatives[0].kind == n.slots[i][j].kind);
            } else if i == 1 {
                assert(Pitch::accepts(n.slots[i][j].kind));
                assert(dv.slots[1].alternatives[0].kind == n.slots[i][j].kind);
            }
        }
        assert forall|i: int, j: int|
            0 <= i < n.slots.len() && 0 <= j < n.slots[i].len() implies (#[trigger] n.slots[i][j]).conforms(
            model(),
        ) by {
            if i == 0 {
                assert(n.slots[i][j].conforms(model()));
            } else if i == 1 {
                assert(n.slots[i][j].conforms(model()));
            }
        }
        assert(n.children_fit(model()));
    }

    fn to_node(&self) -> (n: Node) {
        let mut attributes: Vec<Option<Scalar>> = Vec::new();
        attributes.push(Some(Scalar::Text(self.name.clone())));
        let mut slots: Vec<Vec<Node>> = Vec::new();
        slots.push(node_of_optional(&self.family));
        slots.push(node_of_optional(&self.pitch));
        let n = Node { kind: FONT, attributes, slots, text: String::new() };
        proof {
            lemma_kind_font();
            let dv = Self::descriptor_spec();
            let want = self.node();
            assert(n@.attributes =~= want.attributes);
            assert(n@.slots[0] =~= want.slots[0]);
            assert(n@.slots[1] =~= want.slots[1]);
            assert(n@.slots =~= want.slots);
            assert(n@.text =~= want.text);
            self.lemma_node_conforms();
        }
        n
    }

    fn from_node(n: &Node) -> (r: Font) {
        proof {
            lemma_kind_font();
            let dv = Self::descriptor_spec();
            assert(n@.attributes[0] == value_view(n.attributes@[0]));
            assert(n@.slots[0].len() == n.slots@[0]@.len());
            assert(n@.slots[1].len() == n.slots@[1]@.len());
            assert forall|j: int| 0 <= j < n.slots[0]@.len() implies (#[trigger] n.slots[0]@[j])@.conforms(
                model(),
            ) && Family::accepts(n.slots[0]@[j]@.kind) by {
                assert(n@.slots[0][j] == n.slots[0]@[j]@);
                assert(dv.slots[0].accepts(n@.slots[0][j].kind));
            }
            assert forall|j: int| 0 <= j < n.slots[1]@.len() implies (#[trigger] n.slots[1]@[j])@.conforms(
                model(),
            ) && Pitch::accepts(n.slots[1]@[j]@.kind) by {
                assert(n@.slots[1][j] == n.slots[1]@[j]@);
                assert(dv.slots[1].accepts(n@.slots[1][j].kind));
            }
        }
        let r = Font {
            name: match text_of(&n.attributes[0]) {
                Some(v) => v,
                None => String::new(),
            },
            family: optional_of(&n.slots[0]),
            pitch: optional_of(&n.slots[1]),
        };
        proof {
            let got = r.node();
            assert(got.attributes =~= n@.attributes);
            assert(got.slots[0] =~= n@.slots[0]);
            assert(got.slots[1] =~= n@.slots[1]);
            assert(got.slots =~= n@.slots);
            assert(got.text =~= n@.text);
        }
        r
    }
}

impl Element for Font {
    open spec fn tokens(&self) -> Seq<Tok> {
        element_tokens(model(), self.node())
    }

    open spec fn kind_spec() -> nat {
        FONT as nat
    }

    proof fn lemma_kind() {
        lemma_kind_font();
    }

    fn kind() -> (k: usize) {
        proof {
            lemma_kind_font();
        }
        FONT
    }

    fn to_writer(&self, sink: &mut Sink) -> (r: Result<(), WriteError>) {
        let schema = schema();
        let node = self.to_node();
        encode_element(&schema, &node, sink)
    }
}

impl Font {
    /// The element that the default value stands for.
    pub open spec fn initial() -> NodeView {
        NodeView {
            kind: FONT as nat,
            attributes: seq![Some(ScalarView::Text(Seq::empty()))],
            slots: seq![Seq::empty(), Seq::empty()],
            text: Seq::empty(),
        }
    }
}

impl Default for Font {
    fn default() -> (r: Font)
        ensures
            r.node() == Self::initial(),
    {
        let r = Font {
            name: String::new(),
            family: None,
            pitch: None,
        };
        proof {
            let got = r.node();
            let want = Self::initial();
            assert(got.attributes =~= want.attributes);
            assert(got.slots[0] =~= want.slots[0]);
            assert(got.slots[1] =~= want.slots[1]);
            assert(got.slots =~= want.slots);
            assert(got.text =~= want.text);
        }
        r
    }
}

impl Font {
    /// The default stands for an element of the model, all of which is
    /// written.
    pub proof fn lemma_initial()
        ensures
            Self::initial().conforms(model()),
            Self::initial().written_back(model()),
            Self::initial().kind == FONT,
    {
        lemma_kind_font();
        let dv = Self::descriptor_spec();
        let n = Self::initial();
        assert(n.attributes_fit(model(), true));
        assert(n.slots_fit(model(), true));
        assert forall|i: int, j: int|
            0 <= i < n.slots.len() && 0 <= j < n.slots[i].len() implies dv.slots[i].accepts(
            (#[trigger] n.slots[i][j]).kind,
        ) by {
        }
        assert(n.children_fit(model()));
    }

    /// What is written of the default is read as the default.
    pub proof fn lemma_default_round_trip(rest: Seq<Tok>)
        ensures
            decode_element_spec(
                model(),
                FONT as nat,
                element_tokens(model(), Self::initial()).skip(1) + rest,
            ) == Ok::<_, DecodeError>((Self::initial(), rest)),
    {
        Self::lemma_initial();
        lemma_model_well_formed();
        lemma_round_trip(model(), Self::initial(), rest);
    }
}

} // verus!
