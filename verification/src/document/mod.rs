//! The main document part and what it is made of.

pub mod body;
pub mod bookmark_end;
pub mod bookmark_start;
pub mod break_;
pub mod comment_range;
pub mod drawing;
pub mod grid_column;
pub mod hyperlink;
pub mod paragraph;
pub mod run;
pub mod smart_tag;
pub mod tab;
pub mod table;
pub mod table_cell;
pub mod table_grid;
pub mod table_row;
pub mod text;

pub use self::body::{BodyContent, Body};
pub use self::bookmark_end::BookmarkEnd;
pub use self::bookmark_start::BookmarkStart;
pub use self::break_::{BreakType, Break};
pub use self::comment_range::{CommentRangeStart, CommentRangeEnd};
pub use self::drawing::Drawing;
pub use self::grid_column::GridColumn;
pub use self::hyperlink::Hyperlink;
pub use self::paragraph::{ParagraphContent, Paragraph, ParagraphId, paragraph_texts, item_texts, item_with_text, content_with_text};
pub use self::run::{RunContent, Run, run_texts, text_views, run_with_text};
pub use self::smart_tag::SmartTag;
pub use self::tab::Tab;
pub use self::table::Table;
pub use self::table_cell::{TableCellContent, TableCell};
pub use self::table_grid::TableGrid;
pub use self::table_row::TableRow;
pub use self::text::{TextSpace, Text};

use crate::catalog::{
    lemma_kind_document, lemma_model_declares_nothing, lemma_model_well_formed, model, schema,
    BODY, DOCUMENT,
};
use crate::decode::{decode_element_spec, decode_root_spec};
use crate::encode::{element_tokens, encode_root, root_tokens, slots_tokens};
use crate::entity::{node_of_one, Element, Entity};
use crate::error::{DecodeError, WriteError};
use crate::laws::{
    is_declaration, lemma_declared_root_round_trip, lemma_root_declares_once, lemma_round_trip,
};
use crate::node::{Node, NodeView, Scalar};
use crate::schema::{
    AlternativeView, Attribute, Cardinality, Content, Descriptor, DescriptorView, Name, NameView,
    Slot, SlotView,
};
use crate::token::Tok;
use crate::writer::Sink;
use vstd::prelude::*;
use vstd::std_specs::convert::IntoSpec;

verus! {

/// The root element of the main document part.
#[derive(Debug, PartialEq)]
pub struct Document {
    /// the body of the document
    pub body: Body,
}

impl Document {
    /// What the mapping knows of the element: its tag, its attributes and
    /// the slots of its children.
    pub open spec fn descriptor_spec() -> DescriptorView {
        DescriptorView {
            tag: NameView { prefix: "w"@, local: "document"@ },
            attributes: Seq::empty(),
            slots: seq![
                SlotView {
                    cardinality: Cardinality::Required,
                    alternatives: seq![
                        AlternativeView {
                            tag: NameView { prefix: "w"@, local: "body"@ },
                            kind: BODY as nat,
                        },
                    ],
                },
            ],
            content: Content::Children,
        }
    }

    /// What the mapping knows of the element.
    pub fn descriptor() -> (d: Descriptor)
        ensures
            d@ == Self::descriptor_spec(),
    {
        let attributes: Vec<Attribute> = Vec::new();
        let mut slots: Vec<Slot> = Vec::new();
        slots.push(Slot::one(Cardinality::Required, "w", "body", BODY));
        let d = Descriptor {
            tag: Name::new("w", "document"),
            attributes,
            slots,
            content: Content::Children,
        };
        proof {
            let want = Self::descriptor_spec();
            assert(d@.attributes =~= want.attributes);
            assert(d@.slots[0].alternatives =~= want.slots[0].alternatives);
            assert(d@.slots =~= want.slots);
        }
        d
    }

    /// No two attributes of the element have the same name, and no two of its
    /// slots accept the same tag.
    pub proof fn lemma_descriptor_distinct()
        ensures
            Self::descriptor_spec().distinct(),
    {
    }
}

impl Entity for Document {
    open spec fn accepts(kind: nat) -> bool {
        kind == DOCUMENT
    }

    open spec fn node(&self) -> NodeView {
        NodeView {
            kind: DOCUMENT as nat,
            attributes: Seq::empty(),
            slots: seq![seq![self.body.node()]],
            text: Seq::empty(),
        }
    }

    proof fn lemma_node_conforms(&self) {
        lemma_kind_document();
        let dv = Self::descriptor_spec();
        let n = self.node();
        self.body.lemma_node_conforms();
        assert(n.attributes_fit(model(), true));
        assert(n.slots_fit(model(), true));
        assert forall|i: int, j: int|
            0 <= i < n.slots.len() && 0 <= j < n.slots[i].len() implies dv.slots[i].accepts(
            (#[trigger] n.slots[i][j]).kind,
        ) by {
            if i == 0 {
                assert(Body::accepts(n.slots[i][j].kind));
                assert(dv.slots[0].alternatives[0].kind == n.slots[i][j].kind);
            }
        }
        assert forall|i: int, j: int|
            0 <= i < n.slots.len() && 0 <= j < n.slots[i].len() implies (#[trigger] n.slots[i][j]).conforms(
            model(),
        ) by {
            if i == 0 {
                assert(n.slots[i][j].conforms(model()));
            }
        }
        assert(n.children_fit(model()));
    }

    fn to_node(&self) -> (n: Node) {
        let attributes: Vec<Option<Scalar>> = Vec::new();
        let mut slots: Vec<Vec<Node>> = Vec::new();
        slots.push(node_of_one(&self.body));
        let n = Node { kind: DOCUMENT, attributes, slots, text: String::new() };
        proof {
            lemma_kind_document();
            let dv = Self::descriptor_spec();
            let want = self.node();
            assert(n@.attributes =~= want.attributes);
            assert(n@.slots[0] =~= want.slots[0]);
            assert(n@.slots =~= want.slots);
            assert(n@.text =~= want.text);
            self.lemma_node_conforms();
        }
        n
    }

    fn from_node(n: &Node) -> (r: Document) {
        proof {
            lemma_kind_document();
            let dv = Self::descriptor_spec();
            assert(n@.slots[0].len() == n.slots@[0]@.len());
            assert forall|j: int| 0 <= j < n.slots[0]@.len() implies (#[trigger] n.slots[0]@[j])@.conforms(
                model(),
            ) && Body::accepts(n.slots[0]@[j]@.kind) by {
                assert(n@.slots[0][j] == n.slots[0]@[j]@);
                assert(dv.slots[0].accepts(n@.slots[0][j].kind));
            }
        }
        let r = Document {
            body: Body::from_node(&n.slots[0][0]),
        };
        proof {
            let got = r.node();
            assert(got.attributes =~= n@.attributes);
            assert(got.slots[0] =~= n@.slots[0]);
            assert(got.slots =~= n@.slots);
            assert(got.text =~= n@.text);
        }
        r
    }
}

impl Element for Document {
    /// The root element with the declaration of the namespace as its one
    /// attribute, and its children inside.
    open spec fn tokens(&self) -> Seq<Tok> {
        root_tokens(Self::descriptor_spec().tag, slots_tokens(model(), self.node().slots))
    }

    fn to_writer(&self, sink: &mut Sink) -> (r: Result<(), WriteError>) {
        let schema = schema();
        let node = self.to_node();
        proof {
            lemma_kind_document();
        }
        encode_root(&schema, &node, sink)
    }

    open spec fn kind_spec() -> nat {
        DOCUMENT as nat
    }

    proof fn lemma_kind() {
        lemma_kind_document();
    }

    fn kind() -> (k: usize) {
        proof {
            lemma_kind_document();
        }
        DOCUMENT
    }

}

impl Document {
    /// What is written of the part, the declaration of the namespace
    /// included, is read as that part, whatever stands behind it.
    pub proof fn lemma_tokens_round_trip(&self, rest: Seq<Tok>)
        requires
            self.node().written_back(model()),
        ensures
            decode_root_spec(model(), DOCUMENT as nat, self.tokens() + rest) == Ok::<_, DecodeError>(
                self.node(),
            ),
    {
        self.lemma_node_conforms();
        lemma_kind_document();
        lemma_model_well_formed();
        lemma_declared_root_round_trip(model(), self.node(), rest);
    }

    /// Of what is written of the part one token declares the namespace: the
    /// one attribute of the root element.
    pub proof fn lemma_namespace_once(&self)
        ensures
            forall|k: int|
                0 <= k < self.tokens().len() ==> (is_declaration(#[trigger] self.tokens()[k])
                    <==> k == 1),
    {
        self.lemma_node_conforms();
        lemma_kind_document();
        lemma_model_declares_nothing();
        lemma_root_declares_once(model(), self.node());
    }
}

impl Document {
    /// The element that the default value stands for.
    pub open spec fn initial() -> NodeView {
        NodeView {
            kind: DOCUMENT as nat,
            attributes: Seq::empty(),
            slots: seq![seq![Body::initial()]],
            text: Seq::empty(),
        }
    }
}

impl Default for Document {
    fn default() -> (r: Document)
        ensures
            r.node() == Self::initial(),
    {
        let r = Document {
            body: Body::default(),
        };
        proof {
            let got = r.node();
            let want = Self::initial();
            assert(got.attributes =~= want.attributes);
            assert(got.slots[0] =~= want.slots[0]);
            assert(got.slots =~= want.slots);
            assert(got.text =~= want.text);
        }
        r
    }
}

impl Document {
    /// The default stands for an element of the model, all of which is
    /// written.
    pub proof fn lemma_initial()
        ensures
            Self::initial().conforms(model()),
            Self::initial().written_back(model()),
            Self::initial().kind == DOCUMENT,
    {
        lemma_kind_document();
        let dv = Self::descriptor_spec();
        let n = Self::initial();
        Body::lemma_initial();
        assert(n.attributes_fit(model(), true));
        assert(n.slots_fit(model(), true));
        assert forall|i: int, j: int|
            0 <= i < n.slots.len() && 0 <= j < n.slots[i].len() implies dv.slots[i].accepts(
            (#[trigger] n.slots[i][j]).kind,
        ) by {
            if i == 0 {
                assert(dv.slots[0].alternatives[0].kind == n.slots[i][j].kind);
            }
        }
        assert(n.children_fit(model()));
    }

    /// What is written of the default is read as the default.
    pub proof fn lemma_default_round_trip(rest: Seq<Tok>)
        ensures
            decode_element_spec(
                model(),
                DOCUMENT as nat,
                element_tokens(model(), Self::initial()).skip(1) + rest,
            ) == Ok::<_, DecodeError>((Self::initial(), rest)),
    {
        Self::lemma_initial();
        lemma_model_well_formed();
        lemma_round_trip(model(), Self::initial(), rest);
    }
}

impl Document {
    /// Puts `content` behind what the body of the document holds.
    pub fn push<T: Into<BodyContent>>(&mut self, content: T) -> (r: &mut Document)
        ensures
            T::obeys_into_spec() ==> r.body.content@ == old(self).body.content@.push(
                content.into_spec(),
            ),
            *final(self) == *final(r),
    {
        self.body.content.push(content.into());
        self
    }
}

} // verus!
