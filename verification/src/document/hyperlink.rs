//! A link to a place in or outside the document.

use crate::catalog::{lemma_kind_hyperlink, lemma_model_well_formed, model, schema, HYPERLINK, RUN};
use crate::decode::decode_element_spec;
use crate::document::run::Run;
use crate::encode::{element_tokens, encode_element};
use crate::entity::{node_of_one, text_of, text_scalar, text_value, Element, Entity};
use crate::error::{DecodeError, WriteError};
use crate::laws::lemma_round_trip;
use crate::node::{value_view, Node, NodeView, Scalar};
use crate::schema::{
    AlternativeView, Attribute, AttributeView, Cardinality, Codec, Content, Descriptor,
    DescriptorView, Name, NameView, Slot, SlotView,
};
use crate::token::Tok;
use crate::writer::Sink;
use vstd::prelude::*;

verus! {

/// A link to a place in or outside the document.
#[derive(Debug, PartialEq)]
pub struct Hyperlink {
    /// the relationship that names the target
    pub id: Option<String>,
    /// the bookmark that is the target
    pub anchor: Option<String>,
    /// the run that is the link
    pub content: Run,
}

impl Hyperlink {
    /// What the mapping knows of the element: its tag, its attributes and
    /// the slots of its children.
    pub open spec fn descriptor_spec() -> DescriptorView {
        DescriptorView {
            tag: NameView { prefix: "w"@, local: "hyperlink"@ },
            attributes: seq![
                AttributeView {
                    name: NameView { prefix: "r"@, local: "id"@ },
                    codec: Codec::Text,
                    required: false,
                },
                AttributeView {
                    name: NameView { prefix: "w"@, local: "anchor"@ },
                    codec: Codec::Text,
                    required: false,
                },
            ],
            slots: seq![
                SlotView {
                    cardinality: Cardinality::Default,
                    alternatives: seq![
                        AlternativeView {
                            tag: NameView { prefix: "w"@, local: "r"@ },
                            kind: RUN as nat,
                        },
                    ],
                },
            ],
            content: Content::Children,
        }
    }

    /// What the mapping knows of the element.
    pub fn descriptor() -> (d: Descriptor)
        ensures
            d@ == Self::descriptor_spec(),
    {
        let mut attributes: Vec<Attribute> = Vec::new();
        attributes.push(Attribute::new("r", "id", Codec::Text, false));
        attributes.push(Attribute::new("w", "anchor", Codec::Text, false));
        let mut slots: Vec<Slot> = Vec::new();
        slots.push(Slot::one(Cardinality::Default, "w", "r", RUN));
        let d = Descriptor {
            tag: Name::new("w", "hyperlink"),
            attributes,
            slots,
            content: Content::Children,
        };
        proof {
            let want = Self::descriptor_spec();
            assert(d@.attributes =~= want.attributes);
            assert(d@.slots[0].alternatives =~= want.slots[0].alternatives);
            assert(d@.slots =~= want.slots);
        }
        d
    }

    /// No two attributes of the element have the same name, and no two of its
    /// slots accept the same tag.
    pub proof fn lemma_descriptor_distinct()
        ensures
            Self::descriptor_spec().distinct(),
    {
        reveal_strlit("anchor");
        reveal_strlit("id");
        reveal_strlit("r");
        reveal_strlit("w");
        assert("r"@[0] != "w"@[0]);
    }
}

impl Entity for Hyperlink {
    open spec fn accepts(kind: nat) -> bool {
        kind == HYPERLINK
    }

    open spec fn node(&self) -> NodeView {
        NodeView {
            kind: HYPERLINK as nat,
            attributes: seq![
                text_value(self.id),
                text_value(self.anchor),
            ],
            slots: seq![seq![self.content.node()]],
            text: Seq::empty(),
        }
    }

    proof fn lemma_node_conforms(&self) {
        lemma_kind_hyperlink();
        let dv = Self::descriptor_spec();
        let n = self.node();
        self.content.lemma_node_conforms();
        assert(n.attributes_fit(model(), true));
        assert(n.slots_fit(model(), true));
        assert forall|i: int, j: int|
            0 <= i < n.slots.len() && 0 <= j < n.slots[i].len() implies dv.slots[i].accepts(
            (#[trigger] n.slots[i][j]).kind,
        ) by {
            if i == 0 {
                assert(Run::accepts(n.slots[i][j].kind));
                assert(dv.slots[0].alternatives[0].kind == n.slots[i][j].kind);
            }
        }
        assert forall|i: int, j: int|
            0 <= i < n.slots.len() && 0 <= j < n.slots[i].len() implies (#[trigger] n.slots[i][j]).conforms(
            model(),
        ) by {
            if i == 0 {
                assert(n.slots[i][j].conforms(model()));
            }
        }
        assert(n.children_fit(model()));
    }

    fn to_node(&self) -> (n: Node) {
        let mut attributes: Vec<Option<Scalar>> = Vec::new();
        attributes.push(text_scalar(&self.id));
        attributes.push(text_scalar(&self.anchor));
        let mut slots: Vec<Vec<Node>> = Vec::new();
        slots.push(node_of_one(&self.content));
        let n = Node { kind: HYPERLINK, attributes, slots, text: String::new() };
        proof {
            lemma_kind_hyperlink();
            let dv = Self::descriptor_spec();
            let want = self.node();
            assert(n@.attributes =~= want.attributes);
            assert(n@.slots[0] =~= want.slots[0]);
            assert(n@.slots =~= want.slots);
            assert(n@.text =~= want.text);
            self.lemma_node_conforms();
        }
        n
    }

    fn from_node(n: &Node) -> (r: Hyperlink) {
        proof {
            lemma_kind_hyperlink();
            let dv = Self::descriptor_spec();
            assert(n@.attributes[0] == value_view(n.attributes@[0]));
            assert(n@.attributes[1] == value_view(n.attributes@[1]));
            assert(n@.slots[0].len() == n.slots@[0]@.len());
            assert forall|j: int| 0 <= j < n.slots[0]@.len() implies (#[trigger] n.slots[0]@[j])@.conforms(
                model(),
            ) && Run::accepts(n.slots[0]@[j]@.kind) by {
                assert(n@.slots[0][j] == n.slots[0]@[j]@);
                assert(dv.slots[0].accepts(n@.slots[0][j].kind));
            }
        }
        let r = Hyperlink {
            id: text_of(&n.attributes[0]),
            anchor: text_of(&n.attributes[1]),
            content: Run::from_node(&n.slots[0][0]),
        };
        proof {
            let got = r.node();
            assert(got.attributes =~= n@.attributes);
            assert(got.slots[0] =~= n@.slots[0]);
            assert(got.slots =~= n@.slots);
            assert(got.text =~= n@.text);
        }
        r
    }
}

impl Element for Hyperlink {
    open spec fn tokens(&self) -> Seq<Tok> {
        element_tokens(model(), self.node())
    }

    open spec fn kind_spec() -> nat {
        HYPERLINK as nat
    }

    proof fn lemma_kind() {
        lemma_kind_hyperlink();
    }

    fn kind() -> (k: usize) {
        proof {
            lemma_kind_hyperlink();
        }
        HYPERLINK
    }

    fn to_writer(&self, sink: &mut Sink) -> (r: Result<(), WriteError>) {
        let schema = schema();
        let node = self.to_node();
        encode_element(&schema, &node, sink)
    }
}

impl Hyperlink {
    /// The element that the default value stands for.
    pub open spec fn initial() -> NodeView {
        NodeView {
            kind: HYPERLINK as nat,
            attributes: seq![None, None],
            slots: seq![seq![Run::initial()]],
            text: Seq::empty(),
        }
    }
}

impl Default for Hyperlink {
    fn default() -> (r: Hyperlink)
        ensures
            r.node() == Self::initial(),
    {
        let r = Hyperlink {
            id: None,
            anchor: None,
            content: Run::default(),
        };
        proof {
            let got = r.node();
            let want = Self::initial();
            assert(got.attributes =~= want.attributes);
            assert(got.slots[0] =~= want.slots[0]);
            assert(got.slots =~= want.slots);
            assert(got.text =~= want.text);
        }
        r
    }
}

impl Hyperlink {
    /// The default stands for an element of the model, all of which is
    /// written.
    pub proof fn lemma_initial()
        ensures
            Self::initial().conforms(model()),
            Self::initial().written_back(model()),
            Self::initial().kind == HYPERLINK,
    {
        lemma_kind_hyperlink();
        let dv = Self::descriptor_spec();
        let n = Self::initial();
        Run::lemma_initial();
        assert(n.attributes_fit(model(), true));
        assert(n.slots_fit(model(), true));
        assert forall|i: int, j: int|
            0 <= i < n.slots.len() && 0 <= j < n.slots[i].len() implies dv.slots[i].accepts(
            (#[trigger] n.slots[i][j]).kind,
        ) by {
            if i == 0 {
                assert(dv.slots[0].alternatives[0].kind == n.slots[i][j].kind);
            }
        }
        assert(n.children_fit(model()));
    }

    /// What is written of the default is read as the default.
    pub proof fn lemma_default_round_trip(rest: Seq<Tok>)
        ensures
            decode_element_spec(
                model(),
                HYPERLINK as nat,
                element_tokens(model(), Self::initial()).skip(1) + rest,
            ) == Ok::<_, DecodeError>((Self::initial(), rest)),
    {
        Self::lemma_initial();
        lemma_model_well_formed();
        lemma_round_trip(model(), Self::initial(), rest);
    }
}

impl Hyperlink {
    /// The same with `value` as its `id`.
    pub fn id(self, value: String) -> (r: Hyperlink)
        ensures
            r == (Hyperlink { id: Some(value), ..self }),
    {
        let mut r = self;
        r.id = Some(value);
        r
    }

    /// The same with `value` as its `anchor`.
    pub fn anchor(self, value: String) -> (r: Hyperlink)
        ensures
            r == (Hyperlink { anchor: Some(value), ..self }),
    {
        let mut r = self;
        r.anchor = Some(value);
        r
    }

    /// The same with `value` as its `content`.
    pub fn content(self, value: Run) -> (r: Hyperlink)
        ensures
            r == (Hyperlink { content: value, ..self }),
    {
        let mut r = self;
        r.content = value;
        r
    }
}

} // verus!
