//! Bold type.

use crate::catalog::{lemma_kind_bold, lemma_model_well_formed, model, schema, BOLD};
use crate::decode::decode_element_spec;
use crate::encode::{element_tokens, encode_element};
use crate::entity::{flag_of, flag_scalar, flag_value, Element, Entity};
use crate::error::{DecodeError, WriteError};
use crate::laws::lemma_round_trip;
use crate::node::{value_view, Node, NodeView, Scalar};
use crate::schema::{
    Attribute, AttributeView, Codec, Content, Descriptor, DescriptorView, Name, NameView, Slot,
};
use crate::token::Tok;
use crate::writer::Sink;
use vstd::prelude::*;

verus! {

/// Bold type.
#[derive(Debug, PartialEq)]
pub struct Bold {
    pub value: Option<bool>,
}

impl Bold {
    /// What the mapping knows of the element: its tag, its attributes and
    /// the slots of its children.
    pub open spec fn descriptor_spec() -> DescriptorView {
        DescriptorView {
            tag: NameView { prefix: "w"@, local: "b"@ },
            attributes: seq![
                AttributeView {
                    name: NameView { prefix: "w"@, local: "val"@ },
                    codec: Codec::Flag,
                    required: false,
                },
            ],
            slots: Seq::empty(),
            content: Content::Children,
        }
    }

    /// What the mapping knows of the element.
    pub fn descriptor() -> (d: Descriptor)
        ensures
            d@ == Self::descriptor_spec(),
    {
        let mut attributes: Vec<Attribute> = Vec::new();
        attributes.push(Attribute::new("w", "val", Codec::Flag, false));
        let slots: Vec<Slot> = Vec::new();
        let d = Descriptor {
            tag: Name::new("w", "b"),
            attributes,
            slots,
            content: Content::Children,
        };
        proof {
            let want = Self::descriptor_spec();
            assert(d@.attributes =~= want.attributes);
            assert(d@.slots =~= want.slots);
        }
        d
    }

    /// No two attributes of the element have the same name, and no two of its
    /// slots accept the same tag.
    pub proof fn lemma_descriptor_distinct()
        ensures
            Self::descriptor_spec().distinct(),
    {
    }
}

impl Entity for Bold {
    open spec fn accepts(kind: nat) -> bool {
        kind == BOLD
    }

    open spec fn node(&self) -> NodeView {
        NodeView {
            kind: BOLD as nat,
            attributes: seq![
                flag_value(self.value),
            ],
            slots: Seq::empty(),
            text: Seq::empty(),
        }
    }

    proof fn lemma_node_conforms(&self) {
        lemma_kind_bold();
        let dv = Self::descriptor_spec();
        let n = self.node();
        assert(n.attributes_fit(model(), true));
        assert(n.slots_fit(model(), true));
        assert(n.children_fit(model()));
    }

    fn to_node(&self) -> (n: Node) {
        let mut attributes: Vec<Option<Scalar>> = Vec::new();
        attributes.push(flag_scalar(self.value));
        let slots: Vec<Vec<Node>> = Vec::new();
        let n = Node { kind: BOLD, attributes, slots, text: String::new() };
        proof {
            lemma_kind_bold();
            let dv = Self::descriptor_spec();
            let want = self.node();
            assert(n@.attributes =~= want.attributes);
            assert(n@.slots =~= want.slots);
            assert(n@.text =~= want.text);
            self.lemma_node_conforms();
        }
        n
    }

    fn from_node(n: &Node) -> (r: Bold) {
        proof {
            lemma_kind_bold();
            let dv = Self::descriptor_spec();
            assert(n@.attributes[0] == value_view(n.attributes@[0]));
        }
        let r = Bold {
            value: flag_of(&n.attributes[0]),
        };
        proof {
            let got = r.node();
            assert(got.attributes =~= n@.attributes);
            assert(got.slots =~= n@.slots);
            assert(got.text =~= n@.text);
        }
        r
    }
}

impl Element for Bold {
    open spec fn tokens(&self) -> Seq<Tok> {
        element_tokens(model(), self.node())
    }

    open spec fn kind_spec() -> nat {
        BOLD as nat
    }

    proof fn lemma_kind() {
        lemma_kind_bold();
    }

    fn kind() -> (k: usize) {
        proof {
            lemma_kind_bold();
        }
        BOLD
    }

    fn to_writer(&self, sink: &mut Sink) -> (r: Result<(), WriteError>) {
        let schema = schema();
        let node = self.to_node();
        encode_element(&schema, &node, sink)
    }
}

impl Bold {
    /// The element that the default value stands for.
    pub open spec fn initial() -> NodeView {
        NodeView {
            kind: BOLD as nat,
            attributes: seq![None],
            slots: Seq::empty(),
            text: Seq::empty(),
        }
    }
}

impl Default for Bold {
    fn default() -> (r: Bold)
        ensures
            r.node() == Self::initial(),
    {
        let r = Bold {
            value: None,
        };
        proof {
            let got = r.node();
            let want = Self::initial();
            assert(got.attributes =~= want.attributes);
            assert(got.slots =~= want.slots);
            assert(got.text =~= want.text);
        }
        r
    }
}

impl Bold {
    /// The default stands for an element of the model, all of which is
    /// written.
    pub proof fn lemma_initial()
        ensures
            Self::initial().conforms(model()),
            Self::initial().written_back(model()),
            Self::initial().kind == BOLD,
    {
        lemma_kind_bold();
        let dv = Self::descriptor_spec();
        let n = Self::initial();
        assert(n.attributes_fit(model(), true));
        assert(n.slots_fit(model(), true));
        assert(n.children_fit(model()));
    }

    /// What is written of the default is read as the default.
    pub proof fn lemma_default_round_trip(rest: Seq<Tok>)
        ensures
            decode_element_spec(
                model(),
                BOLD as nat,
                element_tokens(model(), Self::initial()).skip(1) + rest,
            ) == Ok::<_, DecodeError>((Self::initial(), rest)),
    {
        Self::lemma_initial();
        lemma_model_well_formed();
        lemma_round_trip(model(), Self::initial(), rest);
    }
}

impl From<bool> for Bold {
    /// Bold type, switched on or off.
    fn from(value: bool) -> (r: Bold) {
        Bold { value: Some(value) }
    }
}

impl vstd::std_specs::convert::FromSpecImpl<bool> for Bold {
    open spec fn obeys_from_spec() -> bool {
        true
    }

    open spec fn from_spec(value: bool) -> Bold {
        Bold { value: Some(value) }
    }
}

impl From<Option<bool>> for Bold {
    /// Bold type, with or without a word on whether it is on.
    fn from(value: Option<bool>) -> (r: Bold) {
        Bold { value }
    }
}

impl vstd::std_specs::convert::FromSpecImpl<Option<bool>> for Bold {
    open spec fn obeys_from_spec() -> bool {
        true
    }

    open spec fn from_spec(value: Option<bool>) -> Bold {
        Bold { value }
    }
}

} // verus!
