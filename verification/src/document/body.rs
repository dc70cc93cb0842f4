//! The body of the document: where its content stands.

use crate::catalog::{
    lemma_kind_body, lemma_model_well_formed, model, schema, BODY, PARAGRAPH, TABLE,
};
use crate::decode::decode_element_spec;
use crate::document::paragraph::Paragraph;
use crate::document::table::Table;
use crate::encode::{element_tokens, encode_element};
use crate::entity::{items_of, nodes_of, nodes_of_spec, Element, Entity};
use crate::error::{DecodeError, WriteError};
use crate::laws::lemma_round_trip;
use crate::node::{Node, NodeView, Scalar};
use crate::schema::{
    Alternative, AlternativeView, Attribute, Cardinality, Content, Descriptor, DescriptorView,
    Name, NameView, Slot, SlotView,
};
use crate::token::Tok;
use crate::writer::Sink;
use vstd::prelude::*;
use vstd::std_specs::convert::IntoSpec;

verus! {

/// What the body can hold.
#[derive(Debug, PartialEq)]
pub enum BodyContent {
    Paragraph(Paragraph),
    Table(Table),
}

impl Entity for BodyContent {
    open spec fn accepts(kind: nat) -> bool {
        kind == PARAGRAPH || kind == TABLE
    }

    open spec fn node(&self) -> NodeView {
        match self {
            BodyContent::Paragraph(v) => v.node(),
            BodyContent::Table(v) => v.node(),
        }
    }

    proof fn lemma_node_conforms(&self) {
        match self {
            BodyContent::Paragraph(v) => {
                v.lemma_node_conforms();
            },
            BodyContent::Table(v) => {
                v.lemma_node_conforms();
            },
        }
    }

    fn to_node(&self) -> (n: Node) {
        match self {
            BodyContent::Paragraph(v) => v.to_node(),
            BodyContent::Table(v) => v.to_node(),
        }
    }

    fn from_node(n: &Node) -> (r: BodyContent) {
        if n.kind == PARAGRAPH {
            BodyContent::Paragraph(Paragraph::from_node(n))
        } else {
            BodyContent::Table(Table::from_node(n))
        }
    }
}

impl From<Paragraph> for BodyContent {
    fn from(v: Paragraph) -> (r: BodyContent) {
        BodyContent::Paragraph(v)
    }
}

impl vstd::std_specs::convert::FromSpecImpl<Paragraph> for BodyContent {
    open spec fn obeys_from_spec() -> bool {
        true
    }

    open spec fn from_spec(v: Paragraph) -> BodyContent {
        BodyContent::Paragraph(v)
    }
}

impl From<Table> for BodyContent {
    fn from(v: Table) -> (r: BodyContent) {
        BodyContent::Table(v)
    }
}

impl vstd::std_specs::convert::FromSpecImpl<Table> for BodyContent {
    open spec fn obeys_from_spec() -> bool {
        true
    }

    open spec fn from_spec(v: Table) -> BodyContent {
        BodyContent::Table(v)
    }
}

/// The body of the document: where its content stands.
#[derive(Debug, PartialEq)]
pub struct Body {
    /// what the body holds, in order
    pub content: Vec<BodyContent>,
}

impl Body {
    /// What the mapping knows of the element: its tag, its attributes and
    /// the slots of its children.
    pub open spec fn descriptor_spec() -> DescriptorView {
        DescriptorView {
            tag: NameView { prefix: "w"@, local: "body"@ },
            attributes: Seq::empty(),
            slots: seq![
                SlotView {
                    cardinality: Cardinality::Many,
                    alternatives: seq![
                        AlternativeView {
                            tag: NameView { prefix: "w"@, local: "p"@ },
                            kind: PARAGRAPH as nat,
                        },
                        AlternativeView {
                            tag: NameView { prefix: "w"@, local: "tbl"@ },
                            kind: TABLE as nat,
                        },
                    ],
                },
            ],
            content: Content::Children,
        }
    }

    /// What the mapping knows of the element.
    pub fn descriptor() -> (d: Descriptor)
        ensures
            d@ == Self::descriptor_spec(),
    {
        let attributes: Vec<Attribute> = Vec::new();
        let mut slots: Vec<Slot> = Vec::new();
        let mut alternatives0: Vec<Alternative> = Vec::new();
        alternatives0.push(Alternative::new("w", "p", PARAGRAPH));
        alternatives0.push(Alternative::new("w", "tbl", TABLE));
        slots.push(Slot::many(alternatives0));
        let d = Descriptor {
            tag: Name::new("w", "body"),
            attributes,
            slots,
            content: Content::Children,
        };
        proof {
            let want = Self::descriptor_spec();
            assert(d@.attributes =~= want.attributes);
            assert(d@.slots[0].alternatives =~= want.slots[0].alternatives);
            assert(d@.slots =~= want.slots);
        }
        d
    }

    /// No two attributes of the element have the same name, and no two of its
    /// slots accept the same tag.
    pub proof fn lemma_descriptor_distinct()
        ensures
            Self::descriptor_spec().distinct(),
    {
        reveal_strlit("p");
        reveal_strlit("tbl");
        reveal_strlit("w");
        assert("p"@.len() != "tbl"@.len());
    }
}

impl Entity for Body {
    open spec fn accepts(kind: nat) -> bool {
        kind == BODY
    }

    open spec fn node(&self) -> NodeView {
        NodeView {
            kind: BODY as nat,
            attributes: Seq::empty(),
            slots: seq![nodes_of_spec(self.content@)],
            text: Seq::empty(),
        }
    }

    proof fn lemma_node_conforms(&self) {
        lemma_kind_body();
        let dv = Self::descriptor_spec();
        let n = self.node();
        assert forall|j: int| 0 <= j < self.content@.len() implies (#[trigger] self.content@[j]).node().conforms(
            model(),
        ) && BodyContent::accepts(self.content@[j].node().kind) by {
            self.content@[j].lemma_node_conforms();
        }
        assert(n.attributes_fit(model(), true));
        assert(n.slots_fit(model(), true));
        assert forall|i: int, j: int|
            0 <= i < n.slots.len() && 0 <= j < n.slots[i].len() implies dv.slots[i].accepts(
            (#[trigger] n.slots[i][j]).kind,
        ) by {
            if i == 0 {
                assert(BodyContent::accepts(n.slots[i][j].kind));
                if n.slots[i][j].kind == PARAGRAPH {
                    assert(dv.slots[0].alternatives[0].kind == n.slots[i][j].kind);
                } else if n.slots[i][j].kind == TABLE {
                    assert(dv.slots[0].alternatives[1].kind == n.slots[i][j].kind);
                }
            }
        }
        assert forall|i: int, j: int|
            0 <= i < n.slots.len() && 0 <= j < n.slots[i].len() implies (#[trigger] n.slots[i][j]).conforms(
            model(),
        ) by {
            if i == 0 {
                assert(n.slots[i][j] == self.content@[j].node());
            }
        }
        assert(n.children_fit(model()));
    }

    fn to_node(&self) -> (n: Node) {
        let attributes: Vec<Option<Scalar>> = Vec::new();
        let mut slots: Vec<Vec<Node>> = Vec::new();
        slots.push(nodes_of(&self.content));
        let n = Node { kind: BODY, attributes, slots, text: String::new() };
        proof {
            lemma_kind_body();
            let dv = Self::descriptor_spec();
            let want = self.node();
            assert(n@.attributes =~= want.attributes);
            assert(n@.slots[0] =~= want.slots[0]);
            assert(n@.slots =~= want.slots);
            assert(n@.text =~= want.text);
            self.lemma_node_conforms();
        }
        n
    }

    fn from_node(n: &Node) -> (r: Body) {
        proof {
            lemma_kind_body();
            let dv = Self::descriptor_spec();
            assert(n@.slots[0].len() == n.slots@[0]@.len());
            assert forall|j: int| 0 <= j < n.slots[0]@.len() implies (#[trigger] n.slots[0]@[j])@.conforms(
                model(),
            ) && BodyContent::accepts(n.slots[0]@[j]@.kind) by {
                assert(n@.slots[0][j] == n.slots[0]@[j]@);
                assert(dv.slots[0].accepts(n@.slots[0][j].kind));
            }
        }
        let r = Body {
            content: items_of(&n.slots[0]),
        };
        proof {
            let got = r.node();
            assert(got.attributes =~= n@.attributes);
            assert(got.slots[0] =~= n@.slots[0]);
            assert(got.slots =~= n@.slots);
            assert(got.text =~= n@.text);
        }
        r
    }
}

impl Element for Body {
    open spec fn tokens(&self) -> Seq<Tok> {
        element_tokens(model(), self.node())
    }

    open spec fn kind_spec() -> nat {
        BODY as nat
    }

    proof fn lemma_kind() {
        lemma_kind_body();
    }

    fn kind() -> (k: usize) {
        proof {
            lemma_kind_body();
        }
        BODY
    }

    fn to_writer(&self, sink: &mut Sink) -> (r: Result<(), WriteError>) {
        let schema = schema();
        let node = self.to_node();
        encode_element(&schema, &node, sink)
    }
}

impl Body {
    /// The element that the default value stands for.
    pub open spec fn initial() -> NodeView {
        NodeView {
            kind: BODY as nat,
            attributes: Seq::empty(),
            slots: seq![Seq::empty()],
            text: Seq::empty(),
        }
    }
}

impl Default for Body {
    fn default() -> (r: Body)
        ensures
            r.node() == Self::initial(),
    {
        let r = Body {
            content: Vec::new(),
        };
        proof {
            let got = r.node();
            let want = Self::initial();
            assert(got.attributes =~= want.attributes);
            assert(got.slots[0] =~= want.slots[0]);
            assert(got.slots =~= want.slots);
            assert(got.text =~= want.text);
        }
        r
    }
}

impl Body {
    /// The default stands for an element of the model, all of which is
    /// written.
    pub proof fn lemma_initial()
        ensures
            Self::initial().conforms(model()),
            Self::initial().written_back(model()),
            Self::initial().kind == BODY,
    {
        lemma_kind_body();
        let dv = Self::descriptor_spec();
        let n = Self::initial();
        assert(n.attributes_fit(model(), true));
        assert(n.slots_fit(model(), true));
        assert forall|i: int, j: int|
            0 <= i < n.slots.len() && 0 <= j < n.slots[i].len() implies dv.slots[i].accepts(
            (#[trigger] n.slots[i][j]).kind,
        ) by {
        }
        assert(n.children_fit(model()));
    }

    /// What is written of the default is read as the default.
    pub proof fn lemma_default_round_trip(rest: Seq<Tok>)
        ensures
            decode_element_spec(
                model(),
                BODY as nat,
                element_tokens(model(), Self::initial()).skip(1) + rest,
            ) == Ok::<_, DecodeError>((Self::initial(), rest)),
    {
        Self::lemma_initial();
        lemma_model_well_formed();
        lemma_round_trip(model(), Self::initial(), rest);
    }
}

impl Body {
    /// Puts `content` behind what the body holds.
    pub fn push<T: Into<BodyContent>>(&mut self, content: T) -> (r: &mut Body)
        ensures
            T::obeys_into_spec() ==> r.content@ == old(self).content@.push(content.into_spec()),
            *final(self) == *final(r),
    {
        self.content.push(content.into());
        self
    }
}

} // verus!
