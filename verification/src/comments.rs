//! The comments part.

use crate::catalog::{
    lemma_kind_comment, lemma_kind_comments, lemma_model_declares_nothing,
    lemma_model_well_formed, model, schema, COMMENT, COMMENTS, PARAGRAPH,
};
use crate::decode::{decode_element_spec, decode_root_spec};
use crate::document::paragraph::Paragraph;
use crate::encode::{element_tokens, encode_element, encode_root, root_tokens, slots_tokens};
use crate::entity::{items_of, nodes_of, nodes_of_spec, text_of, Element, Entity};
use crate::error::{DecodeError, WriteError};
use crate::laws::{
    is_declaration, lemma_declared_root_round_trip, lemma_root_declares_once, lemma_round_trip,
};
use crate::node::{value_view, Node, NodeView, Scalar, ScalarView};
use crate::schema::{
    Alternative, AlternativeView, Attribute, AttributeView, Cardinality, Codec, Content,
    Descriptor, DescriptorView, Name, NameView, Slot, SlotView,
};
use crate::token::Tok;
use crate::writer::Sink;
use vstd::prelude::*;

verus! {

/// A comment.
#[derive(Debug, PartialEq)]
pub struct Comment {
    /// the identifier of the comment
    pub id: String,
    /// who wrote the comment
    pub author: String,
    /// when the comment was written
    pub date: String,
    /// the body of the comment
    pub content: Vec<Paragraph>,
}

impl Comment {
    /// What the mapping knows of the element: its tag, its attributes and
    /// the slots of its children.
    pub open spec fn descriptor_spec() -> DescriptorView {
        DescriptorView {
            tag: NameView { prefix: "w"@, local: "comment"@ },
            attributes: seq![
                AttributeView {
                    name: NameView { prefix: "w"@, local: "id"@ },
                    codec: Codec::Text,
                    required: true,
                },
                AttributeView {
                    name: NameView { prefix: "w"@, local: "author"@ },
                    codec: Codec::Text,
                    required: true,
                },
                AttributeView {
                    name: NameView { prefix: "w"@, local: "date"@ },
                    codec: Codec::Text,
                    required: true,
                },
            ],
            slots: seq![
                SlotView {
                    cardinality: Cardinality::Many,
                    alternatives: seq![
                        AlternativeView {
                            tag: NameView { prefix: "w"@, local: "p"@ },
                            kind: PARAGRAPH as nat,
                        },
                    ],
                },
            ],
            content: Content::Children,
        }
    }

    /// What the mapping knows of the element.
    pub fn descriptor() -> (d: Descriptor)
        ensures
            d@ == Self::descriptor_spec(),
    {
        let mut attributes: Vec<Attribute> = Vec::new();
        attributes.push(Attribute::new("w", "id", Codec::Text, true));
        attributes.push(Attribute::new("w", "author", Codec::Text, true));
        attributes.push(Attribute::new("w", "date", Codec::Text, true));
        let mut slots: Vec<Slot> = Vec::new();
        let mut alternatives0: Vec<Alternative> = Vec::new();
        alternatives0.push(Alternative::new("w", "p", PARAGRAPH));
        slots.push(Slot::many(alternatives0));
        let d = Descriptor {
            tag: Name::new("w", "comment"),
            attributes,
            slots,
            content: Content::Children,
        };
        proof {
            let want = Self::descriptor_spec();
            assert(d@.attributes =~= want.attributes);
            assert(d@.slots[0].alternatives =~= want.slots[0].alternatives);
            assert(d@.slots =~= want.slots);
        }
        d
    }

    /// No two attributes of the element have the same name, and no two of its
    /// slots accept the same tag.
    pub proof fn lemma_descriptor_distinct()
        ensures
            Self::descriptor_spec().distinct(),
    {
        reveal_strlit("author");
        reveal_strlit("date");
        reveal_strlit("id");
        reveal_strlit("p");
        reveal_strlit("w");
        assert("id"@.len() != "author"@.len());
        assert("id"@.len() != "date"@.len());
        assert("author"@.len() != "date"@.len());
    }
}

impl Entity for Comment {
    open spec fn accepts(kind: nat) -> bool {
        kind == COMMENT
    }

    open spec fn node(&self) -> NodeView {
        NodeView {
            kind: COMMENT as nat,
            attributes: seq![
                Some(ScalarView::Text(self.id@)),
                Some(ScalarView::Text(self.author@)),
                Some(ScalarView::Text(self.date@)),
            ],
            slots: seq![nodes_of_spec(self.content@)],
            text: Seq::empty(),
        }
    }

    proof fn lemma_node_conforms(&self) {
        lemma_kind_comment();
        let dv = Self::descriptor_spec();
        let n = self.node();
        assert forall|j: int| 0 <= j < self.content@.len() implies (#[trigger] self.content@[j]).node().conforms(
            model(),
        ) && Paragraph::accepts(self.content@[j].node().kind) by {
            self.content@[j].lemma_node_conforms();
        }
        assert(n.attributes_fit(model(), true));
        assert(n.slots_fit(model(), true));
        assert forall|i: int, j: int|
            0 <= i < n.slots.len() && 0 <= j < n.slots[i].len() implies dv.slots[i].accepts(
            (#[trigger] n.slots[i][j]).kind,
        ) by {
            if i == 0 {
                assert(Paragraph::accepts(n.slots[i][j].kind));
                assert(dv.slots[0].alternatives[0].kind == n.slots[i][j].kind);
            }
        }
        assert forall|i: int, j: int|
            0 <= i < n.slots.len() && 0 <= j < n.slots[i].len() implies (#[trigger] n.slots[i][j]).conforms(
            model(),
        ) by {
            if i == 0 {
                assert(n.slots[i][j] == self.content@[j].node());
            }
        }
        assert(n.children_fit(model()));
    }

    fn to_node(&self) -> (n: Node) {
        let mut attributes: Vec<Option<Scalar>> = Vec::new();
        attributes.push(Some(Scalar::Text(self.id.clone())));
        attributes.push(Some(Scalar::Text(self.author.clone())));
        attributes.push(Some(Scalar::Text(self.date.clone())));
        let mut slots: Vec<Vec<Node>> = Vec::new();
        slots.push(nodes_of(&self.content));
        let n = Node { kind: COMMENT, attributes, slots, text: String::new() };
        proof {
            lemma_kind_comment();
            let dv = Self::descriptor_spec();
            let want = self.node();
            assert(n@.attributes =~= want.attributes);
            assert(n@.slots[0] =~= want.slots[0]);
            assert(n@.slots =~= want.slots);
            assert(n@.text =~= want.text);
            self.lemma_node_conforms();
        }
        n
    }

    fn from_node(n: &Node) -> (r: Comment) {
        proof {
            lemma_kind_comment();
            let dv = Self::descriptor_spec();
            assert(n@.attributes[0] == value_view(n.attributes@[0]));
            assert(n@.attributes[1] == value_view(n.attributes@[1]));
            assert(n@.attributes[2] == value_view(n.attributes@[2]));
            assert(n@.slots[0].len() == n.slots@[0]@.len());
            assert forall|j: int| 0 <= j < n.slots[0]@.len() implies (#[trigger] n.slots[0]@[j])@.conforms(
                model(),
            ) && Paragraph::accepts(n.slots[0]@[j]@.kind) by {
                assert(n@.slots[0][j] == n.slots[0]@[j]@);
                assert(dv.slots[0].accepts(n@.slots[0][j].kind));
            }
        }
        let r = Comment {
            id: match text_of(&n.attributes[0]) {
                Some(v) => v,
                None => String::new(),
            },
            author: match text_of(&n.attributes[1]) {
                Some(v) => v,
                None => String::new(),
            },
            date: match text_of(&n.attributes[2]) {
                Some(v) => v,
                None => String::new(),
            },
            content: items_of(&n.slots[0]),
        };
        proof {
            let got = r.node();
            assert(got.attributes =~= n@.attributes);
            assert(got.slots[0] =~= n@.slots[0]);
            assert(got.slots =~= n@.slots);
            assert(got.text =~= n@.text);
        }
        r
    }
}

impl Element for Comment {
    open spec fn tokens(&self) -> Seq<Tok> {
        element_tokens(model(), self.node())
    }

    open spec fn kind_spec() -> nat {
        COMMENT as nat
    }

    proof fn lemma_kind() {
        lemma_kind_comment();
    }

    fn kind() -> (k: usize) {
        proof {
            lemma_kind_comment();
        }
        COMMENT
    }

    fn to_writer(&self, sink: &mut Sink) -> (r: Result<(), WriteError>) {
        let schema = schema();
        let node = self.to_node();
        encode_element(&schema, &node, sink)
    }
}

impl Comment {
    /// The element that the default value stands for.
    pub open spec fn initial() -> NodeView {
        NodeView {
            kind: COMMENT as nat,
            attributes: seq![Some(ScalarView::Text(Seq::empty())), Some(ScalarView::Text(Seq::empty())), Some(ScalarView::Text(Seq::empty()))],
            slots: seq![Seq::empty()],
            text: Seq::empty(),
        }
    }
}

impl Default for Comment {
    fn default() -> (r: Comment)
        ensures
            r.node() == Self::initial(),
    {
        let r = Comment {
            id: String::new(),
            author: String::new(),
            date: String::new(),
            content: Vec::new(),
        };
        proof {
            let got = r.node();
            let want = Self::initial();
            assert(got.attributes =~= want.attributes);
            assert(got.slots[0] =~= want.slots[0]);
            assert(got.slots =~= want.slots);
            assert(got.text =~= want.text);
        }
        r
    }
}

impl Comment {
    /// The default stands for an element of the model, all of which is
    /// written.
    pub proof fn lemma_initial()
        ensures
            Self::initial().conforms(model()),
            Self::initial().written_back(model()),
            Self::initial().kind == COMMENT,
    {
        lemma_kind_comment();
        let dv = Self::descriptor_spec();
        let n = Self::initial();
        assert(n.attributes_fit(model(), true));
        assert(n.slots_fit(model(), true));
        assert forall|i: int, j: int|
            0 <= i < n.slots.len() && 0 <= j < n.slots[i].len() implies dv.slots[i].accepts(
            (#[trigger] n.slots[i][j]).kind,
        ) by {
        }
        assert(n.children_fit(model()));
    }

    /// What is written of the default is read as the default.
    pub proof fn lemma_default_round_trip(rest: Seq<Tok>)
        ensures
            decode_element_spec(
                model(),
                COMMENT as nat,
                element_tokens(model(), Self::initial()).skip(1) + rest,
            ) == Ok::<_, DecodeError>((Self::initial(), rest)),
    {
        Self::lemma_initial();
        lemma_model_well_formed();
        lemma_round_trip(model(), Self::initial(), rest);
    }
}

/// The root element of the comments part.
#[derive(Debug, PartialEq)]
pub struct Comments {
    pub comments: Vec<Comment>,
}

impl Comments {
    /// What the mapping knows of the element: its tag, its attributes and
    /// the slots of its children.
    pub open spec fn descriptor_spec() -> DescriptorView {
        DescriptorView {
            tag: NameView { prefix: "w"@, local: "comments"@ },
            attributes: Seq::empty(),
            slots: seq![
                SlotView {
                    cardinality: Cardinality::Many,
                    alternatives: seq![
                        AlternativeView {
                            tag: NameView { prefix: "w"@, local: "comment"@ },
                            kind: COMMENT as nat,
                        },
                    ],
                },
            ],
            content: Content::Children,
        }
    }

    /// What the mapping knows of the element.
    pub fn descriptor() -> (d: Descriptor)
        ensures
            d@ == Self::descriptor_spec(),
    {
        let attributes: Vec<Attribute> = Vec::new();
        let mut slots: Vec<Slot> = Vec::new();
        let mut alternatives0: Vec<Alternative> = Vec::new();
        alternatives0.push(Alternative::new("w", "comment", COMMENT));
        slots.push(Slot::many(alternatives0));
        let d = Descriptor {
            tag: Name::new("w", "comments"),
            attributes,
            slots,
            content: Content::Children,
        };
        proof {
            let want = Self::descriptor_spec();
            assert(d@.attributes =~= want.attributes);
            assert(d@.slots[0].alternatives =~= want.slots[0].alternatives);
            assert(d@.slots =~= want.slots);
        }
        d
    }

    /// No two attributes of the element have the same name, and no two of its
    /// slots accept the same tag.
    pub proof fn lemma_descriptor_distinct()
        ensures
            Self::descriptor_spec().distinct(),
    {
    }
}

impl Entity for Comments {
    open spec fn accepts(kind: nat) -> bool {
        kind == COMMENTS
    }

    open spec fn node(&self) -> NodeView {
        NodeView {
            kind: COMMENTS as nat,
            attributes: Seq::empty(),
            slots: seq![nodes_of_spec(self.comments@)],
            text: Seq::empty(),
        }
    }

    proof fn lemma_node_conforms(&self) {
        lemma_kind_comments();
        let dv = Self::descriptor_spec();
        let n = self.node();
        assert forall|j: int| 0 <= j < self.comments@.len() implies (#[trigger] self.comments@[j]).node().conforms(
            model(),
        ) && Comment::accepts(self.comments@[j].node().kind) by {
            self.comments@[j].lemma_node_conforms();
        }
        assert(n.attributes_fit(model(), true));
        assert(n.slots_fit(model(), true));
        assert forall|i: int, j: int|
            0 <= i < n.slots.len() && 0 <= j < n.slots[i].len() implies dv.slots[i].accepts(
            (#[trigger] n.slots[i][j]).kind,
        ) by {
            if i == 0 {
                assert(Comment::accepts(n.slots[i][j].kind));
                assert(dv.slots[0].alternatives[0].kind == n.slots[i][j].kind);
            }
        }
        assert forall|i: int, j: int|
            0 <= i < n.slots.len() && 0 <= j < n.slots[i].len() implies (#[trigger] n.slots[i][j]).conforms(
            model(),
        ) by {
            if i == 0 {
                assert(n.slots[i][j] == self.comments@[j].node());
            }
        }
        assert(n.children_fit(model()));
    }

    fn to_node(&self) -> (n: Node) {
        let attributes: Vec<Option<Scalar>> = Vec::new();
        let mut slots: Vec<Vec<Node>> = Vec::new();
        slots.push(nodes_of(&self.comments));
        let n = Node { kind: COMMENTS, attributes, slots, text: String::new() };
        proof {
            lemma_kind_comments();
            let dv = Self::descriptor_spec();
            let want = self.node();
            assert(n@.attributes =~= want.attributes);
            assert(n@.slots[0] =~= want.slots[0]);
            assert(n@.slots =~= want.slots);
            assert(n@.text =~= want.text);
            self.lemma_node_conforms();
        }
        n
    }

    fn from_node(n: &Node) -> (r: Comments) {
        proof {
            lemma_kind_comments();
            let dv = Self::descriptor_spec();
            assert(n@.slots[0].len() == n.slots@[0]@.len());
            assert forall|j: int| 0 <= j < n.slots[0]@.len() implies (#[trigger] n.slots[0]@[j])@.conforms(
                model(),
            ) && Comment::accepts(n.slots[0]@[j]@.kind) by {
                assert(n@.slots[0][j] == n.slots[0]@[j]@);
                assert(dv.slots[0].accepts(n@.slots[0][j].kind));
            }
        }
        let r = Comments {
            comments: items_of(&n.slots[0]),
        };
        proof {
            let got = r.node();
            assert(got.attributes =~= n@.attributes);
            assert(got.slots[0] =~= n@.slots[0]);
            assert(got.slots =~= n@.slots);
            assert(got.text =~= n@.text);
        }
        r
    }
}

impl Element for Comments {
    /// The root element with the declaration of the namespace as its one
    /// attribute, and its children inside.
    open spec fn tokens(&self) -> Seq<Tok> {
        root_tokens(Self::descriptor_spec().tag, slots_tokens(model(), self.node().slots))
    }

    fn to_writer(&self, sink: &mut Sink) -> (r: Result<(), WriteError>) {
        let schema = schema();
        let node = self.to_node();
        proof {
            lemma_kind_comments();
        }
        encode_root(&schema, &node, sink)
    }

    open spec fn kind_spec() -> nat {
        COMMENTS as nat
    }

    proof fn lemma_kind() {
        lemma_kind_comments();
    }

    fn kind() -> (k: usize) {
        proof {
            lemma_kind_comments();
        }
        COMMENTS
    }

}

impl Comments {
    /// What is written of the part, the declaration of the namespace
    /// included, is read as that part, whatever stands behind it.
    pub proof fn lemma_tokens_round_trip(&self, rest: Seq<Tok>)
        requires
            self.node().written_back(model()),
        ensures
            decode_root_spec(model(), COMMENTS as nat, self.tokens() + rest) == Ok::<_, DecodeError>(
                self.node(),
            ),
    {
        self.lemma_node_conforms();
        lemma_kind_comments();
        lemma_model_well_formed();
        lemma_declared_root_round_trip(model(), self.node(), rest);
    }

    /// Of what is written of the part one token declares the namespace: the
    /// one attribute of the root element.
    pub proof fn lemma_namespace_once(&self)
        ensures
            forall|k: int|
                0 <= k < self.tokens().len() ==> (is_declaration(#[trigger] self.tokens()[k])
                    <==> k == 1),
    {
        self.lemma_node_conforms();
        lemma_kind_comments();
        lemma_model_declares_nothing();
        lemma_root_declares_once(model(), self.node());
    }
}

impl Comments {
    /// The element that the default value stands for.
    pub open spec fn initial() -> NodeView {
        NodeView {
            kind: COMMENTS as nat,
            attributes: Seq::empty(),
            slots: seq![Seq::empty()],
            text: Seq::empty(),
        }
    }
}

impl Default for Comments {
    fn default() -> (r: Comments)
        ensures
            r.node() == Self::initial(),
    {
        let r = Comments {
            comments: Vec::new(),
        };
        proof {
            let got = r.node();
            let want = Self::initial();
            assert(got.attributes =~= want.attributes);
            assert(got.slots[0] =~= want.slots[0]);
            assert(got.slots =~= want.slots);
            assert(got.text =~= want.text);
        }
        r
    }
}

impl Comments {
    /// The default stands for an element of the model, all of which is
    /// written.
    pub proof fn lemma_initial()
        ensures
            Self::initial().conforms(model()),
            Self::initial().written_back(model()),
            Self::initial().kind == COMMENTS,
    {
        lemma_kind_comments();
        let dv = Self::descriptor_spec();
        let n = Self::initial();
        assert(n.attributes_fit(model(), true));
        assert(n.slots_fit(model(), true));
        assert forall|i: int, j: int|
            0 <= i < n.slots.len() && 0 <= j < n.slots[i].len() implies dv.slots[i].accepts(
            (#[trigger] n.slots[i][j]).kind,
        ) by {
        }
        assert(n.children_fit(model()));
    }

    /// What is written of the default is read as the default.
    pub proof fn lemma_default_round_trip(rest: Seq<Tok>)
        ensures
            decode_element_spec(
                model(),
                COMMENTS as nat,
                element_tokens(model(), Self::initial()).skip(1) + rest,
            ) == Ok::<_, DecodeError>((Self::initial(), rest)),
    {
        Self::lemma_initial();
        lemma_model_well_formed();
        lemma_round_trip(model(), Self::initial(), rest);
    }
}

} // verus!
