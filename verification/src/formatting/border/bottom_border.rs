//! The border below.

use crate::catalog::{
    lemma_kind_bottom_border, lemma_model_well_formed, lemma_symbols_border_style, model, schema,
    BORDER_STYLE_SYMBOLS, BOTTOM_BORDER,
};
use crate::decode::decode_element_spec;
use crate::encode::{element_tokens, encode_element};
use crate::entity::{
    flag_of, flag_scalar, flag_value, symbol_of, symbol_scalar, symbol_value, text_of,
    text_scalar, text_value, unsigned_of, unsigned_scalar, unsigned_value, Element, Entity,
};
use crate::error::{DecodeError, WriteError};
use crate::formatting::border::border_style::BorderStyle;
use crate::laws::lemma_round_trip;
use crate::node::{value_view, Node, NodeView, Scalar};
use crate::schema::{
    Attribute, AttributeView, Codec, Content, Descriptor, DescriptorView, Name, NameView, Slot,
};
use crate::token::Tok;
use crate::writer::Sink;
use vstd::prelude::*;

verus! {

/// The border below.
#[derive(Debug, PartialEq)]
pub struct BottomBorder {
    pub color: Option<String>,
    pub shadow: Option<bool>,
    pub space: Option<usize>,
    pub size: Option<usize>,
    pub style: Option<BorderStyle>,
}

impl BottomBorder {
    /// What the mapping knows of the element: its tag, its attributes and
    /// the slots of its children.
    pub open spec fn descriptor_spec() -> DescriptorView {
        DescriptorView {
            tag: NameView { prefix: "w"@, local: "bottom"@ },
            attributes: seq![
                AttributeView {
                    name: NameView { prefix: "w"@, local: "color"@ },
                    codec: Codec::Text,
                    required: false,
                },
                AttributeView {
                    name: NameView { prefix: "w"@, local: "shadow"@ },
                    codec: Codec::Flag,
                    required: false,
                },
                AttributeView {
                    name: NameView { prefix: "w"@, local: "space"@ },
                    codec: Codec::Unsigned,
                    required: false,
                },
                AttributeView {
                    name: NameView { prefix: "w"@, local: "sz"@ },
                    codec: Codec::Unsigned,
                    required: false,
                },
                AttributeView {
                    name: NameView { prefix: "w"@, local: "val"@ },
                    codec: Codec::Symbol(BORDER_STYLE_SYMBOLS),
                    required: false,
                },
            ],
            slots: Seq::empty(),
            content: Content::Children,
        }
    }

    /// What the mapping knows of the element.
    pub fn descriptor() -> (d: Descriptor)
        ensures
            d@ == Self::descriptor_spec(),
    {
        let mut attributes: Vec<Attribute> = Vec::new();
        attributes.push(Attribute::new("w", "color", Codec::Text, false));
        attributes.push(Attribute::new("w", "shadow", Codec::Flag, false));
        attributes.push(Attribute::new("w", "space", Codec::Unsigned, false));
        attributes.push(Attribute::new("w", "sz", Codec::Unsigned, false));
        attributes.push(Attribute::new("w", "val", Codec::Symbol(BORDER_STYLE_SYMBOLS), false));
        let slots: Vec<Slot> = Vec::new();
        let d = Descriptor {
            tag: Name::new("w", "bottom"),
            attributes,
            slots,
            content: Content::Children,
        };
        proof {
            let want = Self::descriptor_spec();
            assert(d@.attributes =~= want.attributes);
            assert(d@.slots =~= want.slots);
        }
        d
    }

    /// No two attributes of the element have the same name, and no two of its
    /// slots accept the same tag.
    pub proof fn lemma_descriptor_distinct()
        ensures
            Self::descriptor_spec().distinct(),
    {
        reveal_strlit("color");
        reveal_strlit("shadow");
        reveal_strlit("space");
        reveal_strlit("sz");
        reveal_strlit("val");
        reveal_strlit("w");
        assert("color"@.len() != "shadow"@.len());
        assert("color"@[0] != "space"@[0]);
        assert("color"@.len() != "sz"@.len());
        assert("color"@.len() != "val"@.len());
        assert("shadow"@.len() != "space"@.len());
        assert("shadow"@.len() != "sz"@.len());
        assert("shadow"@.len() != "val"@.len());
        assert("space"@.len() != "sz"@.len());
        assert("space"@.len() != "val"@.len());
        assert("sz"@.len() != "val"@.len());
    }
}

impl Entity for BottomBorder {
    open spec fn accepts(kind: nat) -> bool {
        kind == BOTTOM_BORDER
    }

    open spec fn node(&self) -> NodeView {
        NodeView {
            kind: BOTTOM_BORDER as nat,
            attributes: seq![
                text_value(self.color),
                flag_value(self.shadow),
                unsigned_value(self.space),
                unsigned_value(self.size),
                symbol_value(match self.style {
                    Some(s) => Some(s.index_spec()),
                    None => None,
                }),
            ],
            slots: Seq::empty(),
            text: Seq::empty(),
        }
    }

    proof fn lemma_node_conforms(&self) {
        lemma_kind_bottom_border();
        lemma_symbols_border_style();
        let dv = Self::descriptor_spec();
        let n = self.node();
        assert(n.attributes_fit(model(), true));
        assert(n.slots_fit(model(), true));
        assert(n.children_fit(model()));
    }

    fn to_node(&self) -> (n: Node) {
        let mut attributes: Vec<Option<Scalar>> = Vec::new();
        attributes.push(text_scalar(&self.color));
        attributes.push(flag_scalar(self.shadow));
        attributes.push(unsigned_scalar(self.space));
        attributes.push(unsigned_scalar(self.size));
        attributes.push(
            symbol_scalar(match &self.style {
                Some(s) => Some(s.index()),
                None => None,
            }),
        );
        let slots: Vec<Vec<Node>> = Vec::new();
        let n = Node { kind: BOTTOM_BORDER, attributes, slots, text: String::new() };
        proof {
            lemma_kind_bottom_border();
            lemma_symbols_border_style();
            let dv = Self::descriptor_spec();
            let want = self.node();
            assert(n@.attributes =~= want.attributes);
            assert(n@.slots =~= want.slots);
            assert(n@.text =~= want.text);
            self.lemma_node_conforms();
        }
        n
    }

    fn from_node(n: &Node) -> (r: BottomBorder) {
        proof {
            lemma_kind_bottom_border();
            let dv = Self::descriptor_spec();
            lemma_symbols_border_style();
            assert(n@.attributes[0] == value_view(n.attributes@[0]));
            assert(n@.attributes[1] == value_view(n.attributes@[1]));
            assert(n@.attributes[2] == value_view(n.attributes@[2]));
            assert(n@.attributes[3] == value_view(n.attributes@[3]));
            assert(n@.attributes[4] == value_view(n.attributes@[4]));
        }
        let r = BottomBorder {
            color: text_of(&n.attributes[0]),
            shadow: flag_of(&n.attributes[1]),
            space: unsigned_of(&n.attributes[2]),
            size: unsigned_of(&n.attributes[3]),
            style: match symbol_of(&n.attributes[4]) {
                Some(i) => Some(BorderStyle::from_index(i)),
                None => None,
            },
        };
        proof {
            let got = r.node();
            assert(got.attributes =~= n@.attributes);
            assert(got.slots =~= n@.slots);
            assert(got.text =~= n@.text);
        }
        r
    }
}

impl Element for BottomBorder {
    open spec fn tokens(&self) -> Seq<Tok> {
        element_tokens(model(), self.node())
    }

    open spec fn kind_spec() -> nat {
        BOTTOM_BORDER as nat
    }

    proof fn lemma_kind() {
        lemma_kind_bottom_border();
    }

    fn kind() -> (k: usize) {
        proof {
            lemma_kind_bottom_border();
        }
        BOTTOM_BORDER
    }

    fn to_writer(&self, sink: &mut Sink) -> (r: Result<(), WriteError>) {
        let schema = schema();
        let node = self.to_node();
        encode_element(&schema, &node, sink)
    }
}

impl BottomBorder {
    /// The element that the default value stands for.
    pub open spec fn initial() -> NodeView {
        NodeView {
            kind: BOTTOM_BORDER as nat,
            attributes: seq![None, None, None, None, None],
            slots: Seq::empty(),
            text: Seq::empty(),
        }
    }
}

impl Default for BottomBorder {
    fn default() -> (r: BottomBorder)
        ensures
            r.node() == Self::initial(),
    {
        let r = BottomBorder {
            color: None,
            shadow: None,
            space: None,
            size: None,
            style: None,
        };
        proof {
            let got = r.node();
            let want = Self::initial();
            assert(got.attributes =~= want.attributes);
            assert(got.slots =~= want.slots);
            assert(got.text =~= want.text);
        }
        r
    }
}

impl BottomBorder {
    /// The default stands for an element of the model, all of which is
    /// written.
    pub proof fn lemma_initial()
        ensures
            Self::initial().conforms(model()),
            Self::initial().written_back(model()),
            Self::initial().kind == BOTTOM_BORDER,
    {
        lemma_kind_bottom_border();
        lemma_symbols_border_style();
        let dv = Self::descriptor_spec();
        let n = Self::initial();
        assert(n.attributes_fit(model(), true));
        assert(n.slots_fit(model(), true));
        assert(n.children_fit(model()));
    }

    /// What is written of the default is read as the default.
    pub proof fn lemma_default_round_trip(rest: Seq<Tok>)
        ensures
            decode_element_spec(
                model(),
                BOTTOM_BORDER as nat,
                element_tokens(model(), Self::initial()).skip(1) + rest,
            ) == Ok::<_, DecodeError>((Self::initial(), rest)),
    {
        Self::lemma_initial();
        lemma_model_well_formed();
        lemma_round_trip(model(), Self::initial(), rest);
    }
}

impl BottomBorder {
    /// The same with `value` as its `color`.
    pub fn color(self, value: String) -> (r: BottomBorder)
        ensures
            r == (BottomBorder { color: Some(value), ..self }),
    {
        let mut r = self;
        r.color = Some(value);
        r
    }

    /// The same with `value` as its `shadow`.
    pub fn shadow(self, value: bool) -> (r: BottomBorder)
        ensures
            r == (BottomBorder { shadow: Some(value), ..self }),
    {
        let mut r = self;
        r.shadow = Some(value);
        r
    }

    /// The same with `value` as its `space`.
    pub fn space(self, value: usize) -> (r: BottomBorder)
        ensures
            r == (BottomBorder { space: Some(value), ..self }),
    {
        let mut r = self;
        r.space = Some(value);
        r
    }

    /// The same with `value` as its `size`.
    pub fn size(self, value: usize) -> (r: BottomBorder)
        ensures
            r == (BottomBorder { size: Some(value), ..self }),
    {
        let mut r = self;
        r.size = Some(value);
        r
    }

    /// The same with `value` as its `style`.
    pub fn style(self, value: BorderStyle) -> (r: BottomBorder)
        ensures
            r == (BottomBorder { style: Some(value), ..self }),
    {
        let mut r = self;
        r.style = Some(value);
        r
    }
}

} // verus!
