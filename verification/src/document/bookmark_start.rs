//! The start of a bookmark.

use crate::catalog::{
    lemma_kind_bookmark_start, lemma_model_well_formed, model, schema, BOOKMARK_START,
};
use crate::decode::decode_element_spec;
use crate::encode::{element_tokens, encode_element};
use crate::entity::{text_of, text_scalar, text_value, Element, Entity};
use crate::error::{DecodeError, WriteError};
use crate::laws::lemma_round_trip;
use crate::node::{value_view, Node, NodeView, Scalar};
use crate::schema::{
    Attribute, AttributeView, Codec, Content, Descriptor, DescriptorView, Name, NameView, Slot,
};
use crate::token::Tok;
use crate::writer::Sink;
use vstd::prelude::*;

verus! {

/// The start of a bookmark.
#[derive(Debug, PartialEq)]
pub struct BookmarkStart {
    /// the identifier of the bookmark
    pub id: Option<String>,
    /// the name of the bookmark
    pub name: Option<String>,
}

impl BookmarkStart {
    /// What the mapping knows of the element: its tag, its attributes and
    /// the slots of its children.
    pub open spec fn descriptor_spec() -> DescriptorView {
        DescriptorView {
            tag: NameView { prefix: "w"@, local: "bookmarkStart"@ },
            attributes: seq![
                AttributeView {
                    name: NameView { prefix: "w"@, local: "id"@ },
                    codec: Codec::Text,
                    required: false,
                },
                AttributeView {
                    name: NameView { prefix: "w"@, local: "name"@ },
                    codec: Codec::Text,
                    required: false,
                },
            ],
            slots: Seq::empty(),
            content: Content::Children,
        }
    }

    /// What the mapping knows of the element.
    pub fn descriptor() -> (d: Descriptor)
        ensures
            d@ == Self::descriptor_spec(),
    {
        let mut attributes: Vec<Attribute> = Vec::new();
        attributes.push(Attribute::new("w", "id", Codec::Text, false));
        attributes.push(Attribute::new("w", "name", Codec::Text, false));
        let slots: Vec<Slot> = Vec::new();
        let d = Descriptor {
            tag: Name::new("w", "bookmarkStart"),
            attributes,
            slots,
            content: Content::Children,
        };
        proof {
            let want = Self::descriptor_spec();
            assert(d@.attributes =~= want.attributes);
            assert(d@.slots =~= want.slots);
        }
        d
    }

    /// No two attributes of the element have the same name, and no two of its
    /// slots accept the same tag.
    pub proof fn lemma_descriptor_distinct()
        ensures
            Self::descriptor_spec().distinct(),
    {
        reveal_strlit("id");
        reveal_strlit("name");
        reveal_strlit("w");
        assert("id"@.len() != "name"@.len());
    }
}

impl Entity for BookmarkStart {
    open spec fn accepts(kind: nat) -> bool {
        kind == BOOKMARK_START
    }

    open spec fn node(&self) -> NodeView {
        NodeView {
            kind: BOOKMARK_START as nat,
            attributes: seq![
                text_value(self.id),
                text_value(self.name),
            ],
            slots: Seq::empty(),
            text: Seq::empty(),
        }
    }

    proof fn lemma_node_conforms(&self) {
        lemma_kind_bookmark_start();
        let dv = Self::descriptor_spec();
        let n = self.node();
        assert(n.attributes_fit(model(), true));
        assert(n.slots_fit(model(), true));
        assert(n.children_fit(model()));
    }

    fn to_node(&self) -> (n: Node) {
        let mut attributes: Vec<Option<Scalar>> = Vec::new();
        attributes.push(text_scalar(&self.id));
        attributes.push(text_scalar(&self.name));
        let slots: Vec<Vec<Node>> = Vec::new();
        let n = Node { kind: BOOKMARK_START, attributes, slots, text: String::new() };
        proof {
            lemma_kind_bookmark_start();
            let dv = Self::descriptor_spec();
            let want = self.node();
            assert(n@.attributes =~= want.attributes);
            assert(n@.slots =~= want.slots);
            assert(n@.text =~= want.text);
            self.lemma_node_conforms();
        }
        n
    }

    fn from_node(n: &Node) -> (r: BookmarkStart) {
        proof {
            lemma_kind_bookmark_start();
            let dv = Self::descriptor_spec();
            assert(n@.attributes[0] == value_view(n.attributes@[0]));
            assert(n@.attributes[1] == value_view(n.attributes@[1]));
        }
        let r = BookmarkStart {
            id: text_of(&n.attributes[0]),
            name: text_of(&n.attributes[1]),
        };
        proof {
            let got = r.node();
            assert(got.attributes =~= n@.attributes);
            assert(got.slots =~= n@.slots);
            assert(got.text =~= n@.text);
        }
        r
    }
}

impl Element for BookmarkStart {
    open spec fn tokens(&self) -> Seq<Tok> {
        element_tokens(model(), self.node())
    }

    open spec fn kind_spec() -> nat {
        BOOKMARK_START as nat
    }

    proof fn lemma_kind() {
        lemma_kind_bookmark_start();
    }

    fn kind() -> (k: usize) {
        proof {
            lemma_kind_bookmark_start();
        }
        BOOKMARK_START
    }

    fn to_writer(&self, sink: &mut Sink) -> (r: Result<(), WriteError>) {
        let schema = schema();
        let node = self.to_node();
        encode_element(&schema, &node, sink)
    }
}

impl BookmarkStart {
    /// The element that the default value stands for.
    pub open spec fn initial() -> NodeView {
        NodeView {
            kind: BOOKMARK_START as nat,
            attributes: seq![None, None],
            slots: Seq::empty(),
            text: Seq::empty(),
        }
    }
}

impl Default for BookmarkStart {
    fn default() -> (r: BookmarkStart)
        ensures
            r.node() == Self::initial(),
    {
        let r = BookmarkStart {
            id: None,
            name: None,
        };
        proof {
            let got = r.node();
            let want = Self::initial();
            assert(got.attributes =~= want.attributes);
            assert(got.slots =~= want.slots);
            assert(got.text =~= want.text);
        }
        r
    }
}

impl BookmarkStart {
    /// The default stands for an element of the model, all of which is
    /// written.
    pub proof fn lemma_initial()
        ensures
            Self::initial().conforms(model()),
            Self::initial().written_back(model()),
            Self::initial().kind == BOOKMARK_START,
    {
        lemma_kind_bookmark_start();
        let dv = Self::descriptor_spec();
        let n = Self::initial();
        assert(n.attributes_fit(model(), true));
        assert(n.slots_fit(model(), true));
        assert(n.children_fit(model()));
    }

    /// What is written of the default is read as the default.
    pub proof fn lemma_default_round_trip(rest: Seq<Tok>)
        ensures
            decode_element_spec(
                model(),
                BOOKMARK_START as nat,
                element_tokens(model(), Self::initial()).skip(1) + rest,
            ) == Ok::<_, DecodeError>((Self::initial(), rest)),
    {
        Self::lemma_initial();
        lemma_model_well_formed();
        lemma_round_trip(model(), Self::initial(), rest);
    }
}

impl BookmarkStart {
    /// The same with `value` as its `id`.
    pub fn id(self, value: String) -> (r: BookmarkStart)
        ensures
            r == (BookmarkStart { id: Some(value), ..self }),
    {
        let mut r = self;
        r.id = Some(value);
        r
    }

    /// The same with `value` as its `name`.
    pub fn name(self, value: String) -> (r: BookmarkStart)
        ensures
            r == (BookmarkStart { name: Some(value), ..self }),
    {
        let mut r = self;
        r.name = Some(value);
        r
    }
}

} // verus!
