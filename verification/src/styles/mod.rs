//! The styles part: sets of properties under a name.

pub mod default_style;
pub mod style;

pub use self::default_style::{DefaultCharacterStyle, DefaultParagraphStyle, DefaultStyle};
pub use self::style::{StyleType, BasedOn, StyleName, Style};

use crate::catalog::{
    lemma_kind_styles, lemma_model_declares_nothing, lemma_model_well_formed, model, schema,
    DEFAULT_STYLE, STYLE, STYLES,
};
use crate::decode::{decode_element_spec, decode_root_spec};
use crate::encode::{element_tokens, encode_root, root_tokens, slots_tokens};
use crate::entity::{items_of, node_of_one, nodes_of, nodes_of_spec, Element, Entity};
use crate::error::{DecodeError, WriteError};
use crate::laws::{
    is_declaration, lemma_declared_root_round_trip, lemma_root_declares_once, lemma_round_trip,
};
use crate::node::{Node, NodeView, Scalar};
use crate::schema::{
    Alternative, AlternativeView, Attribute, Cardinality, Content, Descriptor, DescriptorView,
    Name, NameView, Slot, SlotView,
};
use crate::token::Tok;
use crate::writer::Sink;
use vstd::prelude::*;

verus! {

/// The styles of a document: sets of properties under a name.
#[derive(Debug, PartialEq)]
pub struct Styles {
    /// the default properties
    pub default: DefaultStyle,
    /// the styles
    pub styles: Vec<Style>,
}

impl Styles {
    /// What the mapping knows of the element: its tag, its attributes and
    /// the slots of its children.
    pub open spec fn descriptor_spec() -> DescriptorView {
        DescriptorView {
            tag: NameView { prefix: "w"@, local: "styles"@ },
            attributes: Seq::empty(),
            slots: seq![
                SlotView {
                    cardinality: Cardinality::Default,
                    alternatives: seq![
                        AlternativeView {
                            tag: NameView { prefix: "w"@, local: "docDefaults"@ },
                            kind: DEFAULT_STYLE as nat,
                        },
                    ],
                },
                SlotView {
                    cardinality: Cardinality::Many,
                    alternatives: seq![
                        AlternativeView {
                            tag: NameView { prefix: "w"@, local: "style"@ },
                            kind: STYLE as nat,
                        },
                    ],
                },
            ],
            content: Content::Children,
        }
    }

    /// What the mapping knows of the element.
    pub fn descriptor() -> (d: Descriptor)
        ensures
            d@ == Self::descriptor_spec(),
    {
        let attributes: Vec<Attribute> = Vec::new();
        let mut slots: Vec<Slot> = Vec::new();
        slots.push(Slot::one(Cardinality::Default, "w", "docDefaults", DEFAULT_STYLE));
        let mut alternatives1: Vec<Alternative> = Vec::new();
        alternatives1.push(Alternative::new("w", "style", STYLE));
        slots.push(Slot::many(alternatives1));
        let d = Descriptor {
            tag: Name::new("w", "styles"),
            attributes,
            slots,
            content: Content::Children,
        };
        proof {
            let want = Self::descriptor_spec();
            assert(d@.attributes =~= want.attributes);
            assert(d@.slots[0].alternatives =~= want.slots[0].alternatives);
            assert(d@.slots[1].alternatives =~= want.slots[1].alternatives);
            assert(d@.slots =~= want.slots);
        }
        d
    }

    /// No two attributes of the element have the same name, and no two of its
    /// slots accept the same tag.
    pub proof fn lemma_descriptor_distinct()
        ensures
            Self::descriptor_spec().distinct(),
    {
        reveal_strlit("docDefaults");
        reveal_strlit("style");
        reveal_strlit("w");
        assert("docDefaults"@.len() != "style"@.len());
    }
}

impl Entity for Styles {
    open spec fn accepts(kind: nat) -> bool {
        kind == STYLES
    }

    open spec fn node(&self) -> NodeView {
        NodeView {
            kind: STYLES as nat,
            attributes: Seq::empty(),
            slots: seq![seq![self.default.node()], nodes_of_spec(self.styles@)],
            text: Seq::empty(),
        }
    }

    proof fn lemma_node_conforms(&self) {
        lemma_kind_styles();
        let dv = Self::descriptor_spec();
        let n = self.node();
        self.default.lemma_node_conforms();
        assert forall|j: int| 0 <= j < self.styles@.len() implies (#[trigger] self.styles@[j]).node().conforms(
            model(),
        ) && Style::accepts(self.styles@[j].node().kind) by {
            self.styles@[j].lemma_node_conforms();
        }
        assert(n.attributes_fit(model(), true));
        assert(n.slots_fit(model(), true));
        assert forall|i: int, j: int|
            0 <= i < n.slots.len() && 0 <= j < n.slots[i].len() implies dv.slots[i].accepts(
            (#[trigger] n.slots[i][j]).kind,
        ) by {
            if i == 0 {
                assert(DefaultStyle::accepts(n.slots[i][j].kind));
                assert(dv.slots[0].alternatives[0].kind == n.slots[i][j].kind);
            } else if i == 1 {
                assert(Style::accepts(n.slots[i][j].kind));
                assert(dv.slots[1].alternatives[0].kind == n.slots[i][j].kind);
            }
        }
        assert forall|i: int, j: int|
            0 <= i < n.slots.len() && 0 <= j < n.slots[i].len() implies (#[trigger] n.slots[i][j]).conforms(
            model(),
        ) by {
            if i == 0 {
                assert(n.slots[i][j].conforms(model()));
            } else if i == 1 {
                assert(n.slots[i][j] == self.styles@[j].node());
            }
        }
        assert(n.children_fit(model()));
    }

    fn to_node(&self) -> (n: Node) {
        let attributes: Vec<Option<Scalar>> = Vec::new();
        let mut slots: Vec<Vec<Node>> = Vec::new();
        slots.push(node_of_one(&self.default));
        slots.push(nodes_of(&self.styles));
        let n = Node { kind: STYLES, attributes, slots, text: String::new() };
        proof {
            lemma_kind_styles();
            let dv = Self::descriptor_spec();
            let want = self.node();
            assert(n@.attributes =~= want.attributes);
            assert(n@.slots[0] =~= want.slots[0]);
            assert(n@.slots[1] =~= want.slots[1]);
            assert(n@.slots =~= want.slots);
            assert(n@.text =~= want.text);
            self.lemma_node_conforms();
        }
        n
    }

    fn from_node(n: &Node) -> (r: Styles) {
        proof {
            lemma_kind_styles();
            let dv = Self::descriptor_spec();
            assert(n@.slots[0].len() == n.slots@[0]@.len());
            assert(n@.slots[1].len() == n.slots@[1]@.len());
            assert forall|j: int| 0 <= j < n.slots[0]@.len() implies (#[trigger] n.slots[0]@[j])@.conforms(
                model(),
            ) && DefaultStyle::accepts(n.slots[0]@[j]@.kind) by {
                assert(n@.slots[0][j] == n.slots[0]@[j]@);
                assert(dv.slots[0].accepts(n@.slots[0][j].kind));
            }
            assert forall|j: int| 0 <= j < n.slots[1]@.len() implies (#[trigger] n.slots[1]@[j])@.conforms(
                model(),
            ) && Style::accepts(n.slots[1]@[j]@.kind) by {
                assert(n@.slots[1][j] == n.slots[1]@[j]@);
                assert(dv.slots[1].accepts(n@.slots[1][j].kind));
            }
        }
        let r = Styles {
            default: DefaultStyle::from_node(&n.slots[0][0]),
            styles: items_of(&n.slots[1]),
        };
        proof {
            let got = r.node();
            assert(got.attributes =~= n@.attributes);
            assert(got.slots[0] =~= n@.slots[0]);
            assert(got.slots[1] =~= n@.slots[1]);
            assert(got.slots =~= n@.slots);
            assert(got.text =~= n@.text);
        }
        r
    }
}

impl Element for Styles {
    /// The root element with the declaration of the namespace as its one
    /// attribute, and its children inside.
    open spec fn tokens(&self) -> Seq<Tok> {
        root_tokens(Self::descriptor_spec().tag, slots_tokens(model(), self.node().slots))
    }

    fn to_writer(&self, sink: &mut Sink) -> (r: Result<(), WriteError>) {
        let schema = schema();
        let node = self.to_node();
        proof {
            lemma_kind_styles();
        }
        encode_root(&schema, &node, sink)
    }

    open spec fn kind_spec() -> nat {
        STYLES as nat
    }

    proof fn lemma_kind() {
        lemma_kind_styles();
    }

    fn kind() -> (k: usize) {
        proof {
            lemma_kind_styles();
        }
        STYLES
    }

}

impl Styles {
    /// What is written of the part, the declaration of the namespace
    /// included, is read as that part, whatever stands behind it.
    pub proof fn lemma_tokens_round_trip(&self, rest: Seq<Tok>)
        requires
            self.node().written_back(model()),
        ensures
            decode_root_spec(model(), STYLES as nat, self.tokens() + rest) == Ok::<_, DecodeError>(
                self.node(),
            ),
    {
        self.lemma_node_conforms();
        lemma_kind_styles();
        lemma_model_well_formed();
        lemma_declared_root_round_trip(model(), self.node(), rest);
    }

    /// Of what is written of the part one token declares the namespace: the
    /// one attribute of the root element.
    pub proof fn lemma_namespace_once(&self)
        ensures
            forall|k: int|
                0 <= k < self.tokens().len() ==> (is_declaration(#[trigger] self.tokens()[k])
                    <==> k == 1),
    {
        self.lemma_node_conforms();
        lemma_kind_styles();
        lemma_model_declares_nothing();
        lemma_root_declares_once(model(), self.node());
    }
}

impl Styles {
    /// The element that the default value stands for.
    pub open spec fn initial() -> NodeView {
        NodeView {
            kind: STYLES as nat,
            attributes: Seq::empty(),
            slots: seq![seq![DefaultStyle::initial()], Seq::empty()],
            text: Seq::empty(),
        }
    }
}

impl Styles {
    /// No styles, and the default properties.
    pub fn new() -> (r: Styles)
        ensures
            r.node() == Self::initial(),
    {
        let r = Styles {
            default: DefaultStyle::default(),
            styles: Vec::new(),
        };
        proof {
            let got = r.node();
            let want = Self::initial();
            assert(got.attributes =~= want.attributes);
            assert(got.slots[0] =~= want.slots[0]);
            assert(got.slots[1] =~= want.slots[1]);
            assert(got.slots =~= want.slots);
            assert(got.text =~= want.text);
        }
        r
    }
}

impl Styles {
    /// The default stands for an element of the model, all of which is
    /// written.
    pub proof fn lemma_initial()
        ensures
            Self::initial().conforms(model()),
            Self::initial().written_back(model()),
            Self::initial().kind == STYLES,
    {
        lemma_kind_styles();
        let dv = Self::descriptor_spec();
        let n = Self::initial();
        DefaultStyle::lemma_initial();
        assert(n.attributes_fit(model(), true));
        assert(n.slots_fit(model(), true));
        assert forall|i: int, j: int|
            0 <= i < n.slots.len() && 0 <= j < n.slots[i].len() implies dv.slots[i].accepts(
            (#[trigger] n.slots[i][j]).kind,
        ) by {
            if i == 0 {
                assert(dv.slots[0].alternatives[0].kind == n.slots[i][j].kind);
            }
        }
        assert(n.children_fit(model()));
    }

    /// What is written of the default is read as the default.
    pub proof fn lemma_default_round_trip(rest: Seq<Tok>)
        ensures
            decode_element_spec(
                model(),
                STYLES as nat,
                element_tokens(model(), Self::initial()).skip(1) + rest,
            ) == Ok::<_, DecodeError>((Self::initial(), rest)),
    {
        Self::lemma_initial();
        lemma_model_well_formed();
        lemma_round_trip(model(), Self::initial(), rest);
    }
}

impl Default for Styles {
    fn default() -> Styles {
        Styles::new()
    }
}

impl Styles {
    /// Sets the default properties.
    pub fn default(&mut self, style: DefaultStyle) -> (r: &mut Styles)
        ensures
            r.default == style,
            r.styles == old(self).styles,
            *final(self) == *final(r),
    {
        self.default = style;
        self
    }

    /// Puts `style` behind the other styles.
    pub fn push(&mut self, style: Style) -> (r: &mut Styles)
        ensures
            r.styles@ == old(self).styles@.push(style),
            r.default == old(self).default,
            *final(self) == *final(r),
    {
        self.styles.push(style);
        self
    }
}

} // verus!
