//! The font table part.

pub mod family;
pub mod font;
pub mod pitch;

pub use self::family::Family;
pub use self::font::Font;
pub use self::pitch::Pitch;

use crate::catalog::{
    lemma_kind_font_table, lemma_model_declares_nothing, lemma_model_well_formed, model, schema,
    FONT, FONT_TABLE,
};
use crate::decode::{decode_element_spec, decode_root_spec};
use crate::encode::{element_tokens, encode_root, root_tokens, slots_tokens};
use crate::entity::{items_of, nodes_of, nodes_of_spec, Element, Entity};
use crate::error::{DecodeError, WriteError};
use crate::laws::{
    is_declaration, lemma_declared_root_round_trip, lemma_root_declares_once, lemma_round_trip,
};
use crate::node::{Node, NodeView, Scalar};
use crate::schema::{
    Alternative, AlternativeView, Attribute, Cardinality, Content, Descriptor, DescriptorView,
    Name, NameView, Slot, SlotView,
};
use crate::token::Tok;
use crate::writer::Sink;
use vstd::prelude::*;

verus! {

/// The root element of the font table part.
#[derive(Debug, PartialEq)]
pub struct FontTable {
    pub fonts: Vec<Font>,
}

impl FontTable {
    /// What the mapping knows of the element: its tag, its attributes and
    /// the slots of its children.
    pub open spec fn descriptor_spec() -> DescriptorView {
        DescriptorView {
            tag: NameView { prefix: "w"@, local: "fonts"@ },
            attributes: Seq::empty(),
            slots: seq![
                SlotView {
                    cardinality: Cardinality::Many,
                    alternatives: seq![
                        AlternativeView {
                            tag: NameView { prefix: "w"@, local: "font"@ },
                            kind: FONT as nat,
                        },
                    ],
                },
            ],
            content: Content::Children,
        }
    }

    /// What the mapping knows of the element.
    pub fn descriptor() -> (d: Descriptor)
        ensures
            d@ == Self::descriptor_spec(),
    {
        let attributes: Vec<Attribute> = Vec::new();
        let mut slots: Vec<Slot> = Vec::new();
        let mut alternatives0: Vec<Alternative> = Vec::new();
        alternatives0.push(Alternative::new("w", "font", FONT));
        slots.push(Slot::many(alternatives0));
        let d = Descriptor {
            tag: Name::new("w", "fonts"),
            attributes,
            slots,
            content: Content::Children,
        };
        proof {
            let want = Self::descriptor_spec();
            assert(d@.attributes =~= want.attributes);
            assert(d@.slots[0].alternatives =~= want.slots[0].alternatives);
            assert(d@.slots =~= want.slots);
        }
        d
    }

    /// No two attributes of the element have the same name, and no two of its
    /// slots accept the same tag.
    pub proof fn lemma_descriptor_distinct()
        ensures
            Self::descriptor_spec().distinct(),
    {
    }
}

impl Entity for FontTable {
    open spec fn accepts(kind: nat) -> bool {
        kind == FONT_TABLE
    }

    open spec fn node(&self) -> NodeView {
        NodeView {
            kind: FONT_TABLE as nat,
            attributes: Seq::empty(),
            slots: seq![nodes_of_spec(self.fonts@)],
            text: Seq::empty(),
        }
    }

    proof fn lemma_node_conforms(&self) {
        lemma_kind_font_table();
        let dv = Self::descriptor_spec();
        let n = self.node();
        assert forall|j: int| 0 <= j < self.fonts@.len() implies (#[trigger] self.fonts@[j]).node().conforms(
            model(),
        ) && Font::accepts(self.fonts@[j].node().kind) by {
            self.fonts@[j].lemma_node_conforms();
        }
        assert(n.attributes_fit(model(), true));
        assert(n.slots_fit(model(), true));
        assert forall|i: int, j: int|
            0 <= i < n.slots.len() && 0 <= j < n.slots[i].len() implies dv.slots[i].accepts(
            (#[trigger] n.slots[i][j]).kind,
        ) by {
            if i == 0 {
                assert(Font::accepts(n.slots[i][j].kind));
                assert(dv.slots[0].alternatives[0].kind == n.slots[i][j].kind);
            }
        }
        assert forall|i: int, j: int|
            0 <= i < n.slots.len() && 0 <= j < n.slots[i].len() implies (#[trigger] n.slots[i][j]).conforms(
            model(),
        ) by {
            if i == 0 {
                assert(n.slots[i][j] == self.fonts@[j].node());
            }
        }
        assert(n.children_fit(model()));
    }

    fn to_node(&self) -> (n: Node) {
        let attributes: Vec<Option<Scalar>> = Vec::new();
        let mut slots: Vec<Vec<Node>> = Vec::new();
        slots.push(nodes_of(&self.fonts));
        let n = Node { kind: FONT_TABLE, attributes, slots, text: String::new() };
        proof {
            lemma_kind_font_table();
            let dv = Self::descriptor_spec();
            let want = self.node();
            assert(n@.attributes =~= want.attributes);
            assert(n@.slots[0] =~= want.slots[0]);
            assert(n@.slots =~= want.slots);
            assert(n@.text =~= want.text);
            self.lemma_node_conforms();
        }
        n
    }

    fn from_node(n: &Node) -> (r: FontTable) {
        proof {
            lemma_kind_font_table();
            let dv = Self::descriptor_spec();
            assert(n@.slots[0].len() == n.slots@[0]@.len());
            assert forall|j: int| 0 <= j < n.slots[0]@.len() implies (#[trigger] n.slots[0]@[j])@.conforms(
                model(),
            ) && Font::accepts(n.slots[0]@[j]@.kind) by {
                assert(n@.slots[0][j] == n.slots[0]@[j]@);
                assert(dv.slots[0].accepts(n@.slots[0][j].kind));
            }
        }
        let r = FontTable {
            fonts: items_of(&n.slots[0]),
        };
        proof {
            let got = r.node();
            assert(got.attributes =~= n@.attributes);
            assert(got.slots[0] =~= n@.slots[0]);
            assert(got.slots =~= n@.slots);
            assert(got.text =~= n@.text);
        }
        r
    }
}

impl Element for FontTable {
    /// The root element with the declaration of the namespace as its one
    /// attribute, and its children inside.
    open spec fn tokens(&self) -> Seq<Tok> {
        root_tokens(Self::descriptor_spec().tag, slots_tokens(model(), self.node().slots))
    }

    fn to_writer(&self, sink: &mut Sink) -> (r: Result<(), WriteError>) {
        let schema = schema();
        let node = self.to_node();
        proof {
            lemma_kind_font_table();
        }
        encode_root(&schema, &node, sink)
    }

    open spec fn kind_spec() -> nat {
        FONT_TABLE as nat
    }

    proof fn lemma_kind() {
        lemma_kind_font_table();
    }

    fn kind() -> (k: usize) {
        proof {
            lemma_kind_font_table();
        }
        FONT_TABLE
    }

}

impl FontTable {
    /// What is written of the part, the declaration of the namespace
    /// included, is read as that part, whatever stands behind it.
    pub proof fn lemma_tokens_round_trip(&self, rest: Seq<Tok>)
        requires
            self.node().written_back(model()),
        ensures
            decode_root_spec(model(), FONT_TABLE as nat, self.tokens() + rest) == Ok::<_, DecodeError>(
                self.node(),
            ),
    {
        self.lemma_node_conforms();
        lemma_kind_font_table();
        lemma_model_well_formed();
        lemma_declared_root_round_trip(model(), self.node(), rest);
    }

    /// Of what is written of the part one token declares the namespace: the
    /// one attribute of the root element.
    pub proof fn lemma_namespace_once(&self)
        ensures
            forall|k: int|
                0 <= k < self.tokens().len() ==> (is_declaration(#[trigger] self.tokens()[k])
                    <==> k == 1),
    {
        self.lemma_node_conforms();
        lemma_kind_font_table();
        lemma_model_declares_nothing();
        lemma_root_declares_once(model(), self.node());
    }
}

impl FontTable {
    /// The element that the default value stands for.
    pub open spec fn initial() -> NodeView {
        NodeView {
            kind: FONT_TABLE as nat,
            attributes: Seq::empty(),
            slots: seq![Seq::empty()],
            text: Seq::empty(),
        }
    }
}

impl Default for FontTable {
    fn default() -> (r: FontTable)
        ensures
            r.node() == Self::initial(),
    {
        let r = FontTable {
            fonts: Vec::new(),
        };
        proof {
            let got = r.node();
            let want = Self::initial();
            assert(got.attributes =~= want.attributes);
            assert(got.slots[0] =~= want.slots[0]);
            assert(got.slots =~= want.slots);
            assert(got.text =~= want.text);
        }
        r
    }
}

impl FontTable {
    /// The default stands for an element of the model, all of which is
    /// written.
    pub proof fn lemma_initial()
        ensures
            Self::initial().conforms(model()),
            Self::initial().written_back(model()),
            Self::initial().kind == FONT_TABLE,
    {
        lemma_kind_font_table();
        let dv = Self::descriptor_spec();
        let n = Self::initial();
        assert(n.attributes_fit(model(), true));
        assert(n.slots_fit(model(), true));
        assert forall|i: int, j: int|
            0 <= i < n.slots.len() && 0 <= j < n.slots[i].len() implies dv.slots[i].accepts(
            (#[trigger] n.slots[i][j]).kind,
        ) by {
        }
        assert(n.children_fit(model()));
    }

    /// What is written of the default is read as the default.
    pub proof fn lemma_default_round_trip(rest: Seq<Tok>)
        ensures
            decode_element_spec(
                model(),
                FONT_TABLE as nat,
                element_tokens(model(), Self::initial()).skip(1) + rest,
            ) == Ok::<_, DecodeError>((Self::initial(), rest)),
    {
        Self::lemma_initial();
        lemma_model_well_formed();
        lemma_round_trip(model(), Self::initial(), rest);
    }
}

} // verus!
