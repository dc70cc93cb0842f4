//! Paragraphs, what they hold, and the texts in them.

use crate::catalog::{
    lemma_kind_paragraph, lemma_model_well_formed, model, schema, BOOKMARK_END, BOOKMARK_START,
    COMMENT_RANGE_END, COMMENT_RANGE_START, HYPERLINK, PARAGRAPH, PARAGRAPH_PROPERTY, RUN,
};
use crate::decode::decode_element_spec;
use crate::document::bookmark_end::BookmarkEnd;
use crate::document::bookmark_start::BookmarkStart;
use crate::document::comment_range::{CommentRangeEnd, CommentRangeStart};
use crate::document::hyperlink::Hyperlink;
use crate::document::run::{Run, RunContent};
use crate::document::text::Text;
use crate::encode::{element_tokens, encode_element};
use crate::entity::{
    id_of, id_scalar, id_value, items_of, node_of_one, nodes_of, nodes_of_spec, Element, Entity,
};
use crate::error::{DecodeError, WriteError};
use crate::formatting::character_property::CharacterProperty;
use crate::formatting::paragraph_property::ParagraphProperty;
use crate::laws::lemma_round_trip;
use crate::node::{value_view, Node, NodeView, Scalar};
use crate::scalar::{hex_text, parse_hex, parse_hex_spec, render_hex};
use crate::schema::{
    Alternative, AlternativeView, Attribute, AttributeView, Cardinality, Codec, Content,
    Descriptor, DescriptorView, Name, NameView, Slot, SlotView,
};
use crate::token::Tok;
use crate::writer::Sink;
use vstd::prelude::*;
use vstd::string::StringExecFns;
use crate::document::run::{run_texts, run_with_text, text_views};
use vstd::std_specs::convert::IntoSpec;

verus! {

/// What a paragraph can hold.
#[derive(Debug, PartialEq)]
pub enum ParagraphContent {
    CommentRangeStart(CommentRangeStart),
    CommentRangeEnd(CommentRangeEnd),
    Run(Run),
    Link(Hyperlink),
    BookmarkStart(BookmarkStart),
    BookmarkEnd(BookmarkEnd),
}

impl Entity for ParagraphContent {
    open spec fn accepts(kind: nat) -> bool {
        kind == COMMENT_RANGE_START || kind == COMMENT_RANGE_END || kind == RUN || kind == HYPERLINK || kind == BOOKMARK_START || kind == BOOKMARK_END
    }

    open spec fn node(&self) -> NodeView {
        match self {
            ParagraphContent::CommentRangeStart(v) => v.node(),
            ParagraphContent::CommentRangeEnd(v) => v.node(),
            ParagraphContent::Run(v) => v.node(),
            ParagraphContent::Link(v) => v.node(),
            ParagraphContent::BookmarkStart(v) => v.node(),
            ParagraphContent::BookmarkEnd(v) => v.node(),
        }
    }

    proof fn lemma_node_conforms(&self) {
        match self {
            ParagraphContent::CommentRangeStart(v) => {
                v.lemma_node_conforms();
            },
            ParagraphContent::CommentRangeEnd(v) => {
                v.lemma_node_conforms();
            },
            ParagraphContent::Run(v) => {
                v.lemma_node_conforms();
            },
            ParagraphContent::Link(v) => {
                v.lemma_node_conforms();
            },
            ParagraphContent::BookmarkStart(v) => {
                v.lemma_node_conforms();
            },
            ParagraphContent::BookmarkEnd(v) => {
                v.lemma_node_conforms();
            },
        }
    }

    fn to_node(&self) -> (n: Node) {
        match self {
            ParagraphContent::CommentRangeStart(v) => v.to_node(),
            ParagraphContent::CommentRangeEnd(v) => v.to_node(),
            ParagraphContent::Run(v) => v.to_node(),
            ParagraphContent::Link(v) => v.to_node(),
            ParagraphContent::BookmarkStart(v) => v.to_node(),
            ParagraphContent::BookmarkEnd(v) => v.to_node(),
        }
    }

    fn from_node(n: &Node) -> (r: ParagraphContent) {
        if n.kind == COMMENT_RANGE_START {
            ParagraphContent::CommentRangeStart(CommentRangeStart::from_node(n))
        } else if n.kind == COMMENT_RANGE_END {
            ParagraphContent::CommentRangeEnd(CommentRangeEnd::from_node(n))
        } else if n.kind == RUN {
            ParagraphContent::Run(Run::from_node(n))
        } else if n.kind == HYPERLINK {
            ParagraphContent::Link(Hyperlink::from_node(n))
        } else if n.kind == BOOKMARK_START {
            ParagraphContent::BookmarkStart(BookmarkStart::from_node(n))
        } else {
            ParagraphContent::BookmarkEnd(BookmarkEnd::from_node(n))
        }
    }
}

impl From<CommentRangeStart> for ParagraphContent {
    fn from(v: CommentRangeStart) -> (r: ParagraphContent) {
        ParagraphContent::CommentRangeStart(v)
    }
}

impl vstd::std_specs::convert::FromSpecImpl<CommentRangeStart> for ParagraphContent {
    open spec fn obeys_from_spec() -> bool {
        true
    }

    open spec fn from_spec(v: CommentRangeStart) -> ParagraphContent {
        ParagraphContent::CommentRangeStart(v)
    }
}

impl From<CommentRangeEnd> for ParagraphContent {
    fn from(v: CommentRangeEnd) -> (r: ParagraphContent) {
        ParagraphContent::CommentRangeEnd(v)
    }
}

impl vstd::std_specs::convert::FromSpecImpl<CommentRangeEnd> for ParagraphContent {
    open spec fn obeys_from_spec() -> bool {
        true
    }

    open spec fn from_spec(v: CommentRangeEnd) -> ParagraphContent {
        ParagraphContent::CommentRangeEnd(v)
    }
}

impl From<Run> for ParagraphContent {
    fn from(v: Run) -> (r: ParagraphContent) {
        ParagraphContent::Run(v)
    }
}

impl vstd::std_specs::convert::FromSpecImpl<Run> for ParagraphContent {
    open spec fn obeys_from_spec() -> bool {
        true
    }

    open spec fn from_spec(v: Run) -> ParagraphContent {
        ParagraphContent::Run(v)
    }
}

impl From<Hyperlink> for ParagraphContent {
    fn from(v: Hyperlink) -> (r: ParagraphContent) {
        ParagraphContent::Link(v)
    }
}

impl vstd::std_specs::convert::FromSpecImpl<Hyperlink> for ParagraphContent {
    open spec fn obeys_from_spec() -> bool {
        true
    }

    open spec fn from_spec(v: Hyperlink) -> ParagraphContent {
        ParagraphContent::Link(v)
    }
}

impl From<BookmarkStart> for ParagraphContent {
    fn from(v: BookmarkStart) -> (r: ParagraphContent) {
        ParagraphContent::BookmarkStart(v)
    }
}

impl vstd::std_specs::convert::FromSpecImpl<BookmarkStart> for ParagraphContent {
    open spec fn obeys_from_spec() -> bool {
        true
    }

    open spec fn from_spec(v: BookmarkStart) -> ParagraphContent {
        ParagraphContent::BookmarkStart(v)
    }
}

impl From<BookmarkEnd> for ParagraphContent {
    fn from(v: BookmarkEnd) -> (r: ParagraphContent) {
        ParagraphContent::BookmarkEnd(v)
    }
}

impl vstd::std_specs::convert::FromSpecImpl<BookmarkEnd> for ParagraphContent {
    open spec fn obeys_from_spec() -> bool {
        true
    }

    open spec fn from_spec(v: BookmarkEnd) -> ParagraphContent {
        ParagraphContent::BookmarkEnd(v)
    }
}

/// A paragraph: the main container of content at block level.
#[derive(Debug, PartialEq)]
pub struct Paragraph {
    /// the unique identifier of the paragraph
    pub para_id: Option<ParagraphId>,
    /// the properties of the paragraph; they apply to all that it holds
    pub property: ParagraphProperty,
    /// what the paragraph holds, in order
    pub content: Vec<ParagraphContent>,
}

impl Paragraph {
    /// What the mapping knows of the element: its tag, its attributes and
    /// the slots of its children.
    pub open spec fn descriptor_spec() -> DescriptorView {
        DescriptorView {
            tag: NameView { prefix: "w"@, local: "p"@ },
            attributes: seq![
                AttributeView {
                    name: NameView { prefix: "w14"@, local: "paraId"@ },
                    codec: Codec::HexId,
                    required: false,
                },
            ],
            slots: seq![
                SlotView {
                    cardinality: Cardinality::Default,
                    alternatives: seq![
                        AlternativeView {
                            tag: NameView { prefix: "w"@, local: "pPr"@ },
                            kind: PARAGRAPH_PROPERTY as nat,
                        },
                    ],
                },
                SlotView {
                    cardinality: Cardinality::Many,
                    alternatives: seq![
                        AlternativeView {
                            tag: NameView { prefix: "w"@, local: "commentRangeStart"@ },
                            kind: COMMENT_RANGE_START as nat,
                        },
                        AlternativeView {
                            tag: NameView { prefix: "w"@, local: "commentRangeEnd"@ },
                            kind: COMMENT_RANGE_END as nat,
                        },
                        AlternativeView {
                            tag: NameView { prefix: "w"@, local: "r"@ },
                            kind: RUN as nat,
                        },
                        AlternativeView {
                            tag: NameView { prefix: "w"@, local: "hyperlink"@ },
                            kind: HYPERLINK as nat,
                        },
                        AlternativeView {
                            tag: NameView { prefix: "w"@, local: "bookmarkStart"@ },
                            kind: BOOKMARK_START as nat,
                        },
                        AlternativeView {
                            tag: NameView { prefix: "w"@, local: "bookmarkEnd"@ },
                            kind: BOOKMARK_END as nat,
                        },
                    ],
                },
            ],
            content: Content::Children,
        }
    }

    /// What the mapping knows of the element.
    pub fn descriptor() -> (d: Descriptor)
        ensures
            d@ == Self::descriptor_spec(),
    {
        let mut attributes: Vec<Attribute> = Vec::new();
        attributes.push(Attribute::new("w14", "paraId", Codec::HexId, false));
        let mut slots: Vec<Slot> = Vec::new();
        slots.push(Slot::one(Cardinality::Default, "w", "pPr", PARAGRAPH_PROPERTY));
        let mut alternatives1: Vec<Alternative> = Vec::new();
        alternatives1.push(Alternative::new("w", "commentRangeStart", COMMENT_RANGE_START));
        alternatives1.push(Alternative::new("w", "commentRangeEnd", COMMENT_RANGE_END));
        alternatives1.push(Alternative::new("w", "r", RUN));
        alternatives1.push(Alternative::new("w", "hyperlink", HYPERLINK));
        alternatives1.push(Alternative::new("w", "bookmarkStart", BOOKMARK_START));
        alternatives1.push(Alternative::new("w", "bookmarkEnd", BOOKMARK_END));
        slots.push(Slot::many(alternatives1));
        let d = Descriptor {
            tag: Name::new("w", "p"),
            attributes,
            slots,
            content: Content::Children,
        };
        proof {
            let want = Self::descriptor_spec();
            assert(d@.attributes =~= want.attributes);
            assert(d@.slots[0].alternatives =~= want.slots[0].alternatives);
            assert(d@.slots[1].alternatives =~= want.slots[1].alternatives);
            assert(d@.slots =~= want.slots);
        }
        d
    }

    /// No two attributes of the element have the same name, and no two of its
    /// slots accept the same tag.
    pub proof fn lemma_descriptor_distinct()
        ensures
            Self::descriptor_spec().distinct(),
    {
        reveal_strlit("bookmarkEnd");
        reveal_strlit("bookmarkStart");
        reveal_strlit("commentRangeEnd");
        reveal_strlit("commentRangeStart");
        reveal_strlit("hyperlink");
        reveal_strlit("pPr");
        reveal_strlit("paraId");
        reveal_strlit("r");
        reveal_strlit("w");
        reveal_strlit("w14");
        assert("pPr"@.len() != "commentRangeStart"@.len());
        assert("pPr"@.len() != "commentRangeEnd"@.len());
        assert("pPr"@.len() != "r"@.len());
        assert("pPr"@.len() != "hyperlink"@.len());
        assert("pPr"@.len() != "bookmarkStart"@.len());
        assert("pPr"@.len() != "bookmarkEnd"@.len());
        assert("commentRangeStart"@.len() != "commentRangeEnd"@.len());
        assert("commentRangeStart"@.len() != "r"@.len());
        assert("commentRangeStart"@.len() != "hyperlink"@.len());
        assert("commentRangeStart"@.len() != "bookmarkStart"@.len());
        assert("commentRangeStart"@.len() != "bookmarkEnd"@.len());
        assert("commentRangeEnd"@.len() != "r"@.len());
        assert("commentRangeEnd"@.len() != "hyperlink"@.len());
        assert("commentRangeEnd"@.len() != "bookmarkStart"@.len());
        assert("commentRangeEnd"@.len() != "bookmarkEnd"@.len());
        assert("r"@.len() != "hyperlink"@.len());
        assert("r"@.len() != "bookmarkStart"@.len());
        assert("r"@.len() != "bookmarkEnd"@.len());
        assert("hyperlink"@.len() != "bookmarkStart"@.len());
        assert("hyperlink"@.len() != "bookmarkEnd"@.len());
        assert("bookmarkStart"@.len() != "bookmarkEnd"@.len());
    }
}

impl Entity for Paragraph {
    open spec fn accepts(kind: nat) -> bool {
        kind == PARAGRAPH
    }

    open spec fn node(&self) -> NodeView {
        NodeView {
            kind: PARAGRAPH as nat,
            attributes: seq![
                id_value(match self.para_id {
                    Some(id) => Some(id.value),
                    None => None,
                }),
            ],
            slots: seq![seq![self.property.node()], nodes_of_spec(self.content@)],
            text: Seq::empty(),
        }
    }

    proof fn lemma_node_conforms(&self) {
        lemma_kind_paragraph();
        let dv = Self::descriptor_spec();
        let n = self.node();
        self.property.lemma_node_conforms();
        assert forall|j: int| 0 <= j < self.content@.len() implies (#[trigger] self.content@[j]).node().conforms(
            model(),
        ) && ParagraphContent::accepts(self.content@[j].node().kind) by {
            self.content@[j].lemma_node_conforms();
        }
        assert(n.attributes_fit(model(), true));
        assert(n.slots_fit(model(), true));
        assert forall|i: int, j: int|
            0 <= i < n.slots.len() && 0 <= j < n.slots[i].len() implies dv.slots[i].accepts(
            (#[trigger] n.slots[i][j]).kind,
        ) by {
            if i == 0 {
                assert(ParagraphProperty::accepts(n.slots[i][j].kind));
                assert(dv.slots[0].alternatives[0].kind == n.slots[i][j].kind);
            } else if i == 1 {
                assert(ParagraphContent::accepts(n.slots[i][j].kind));
                if n.slots[i][j].kind == COMMENT_RANGE_START {
                    assert(dv.slots[1].alternatives[0].kind == n.slots[i][j].kind);
                } else if n.slots[i][j].kind == COMMENT_RANGE_END {
                    assert(dv.slots[1].alternatives[1].kind == n.slots[i][j].kind);
                } else if n.slots[i][j].kind == RUN {
                    assert(dv.slots[1].alternatives[2].kind == n.slots[i][j].kind);
                } else if n.slots[i][j].kind == HYPERLINK {
                    assert(dv.slots[1].alternatives[3].kind == n.slots[i][j].kind);
                } else if n.slots[i][j].kind == BOOKMARK_START {
                    assert(dv.slots[1].alternatives[4].kind == n.slots[i][j].kind);
                } else if n.slots[i][j].kind == BOOKMARK_END {
                    assert(dv.slots[1].alternatives[5].kind == n.slots[i][j].kind);
                }
            }
        }
        assert forall|i: int, j: int|
            0 <= i < n.slots.len() && 0 <= j < n.slots[i].len() implies (#[trigger] n.slots[i][j]).conforms(
            model(),
        ) by {
            if i == 0 {
                assert(n.slots[i][j].conforms(model()));
            } else if i == 1 {
                assert(n.slots[i][j] == self.content@[j].node());
            }
        }
        assert(n.children_fit(model()));
    }

    fn to_node(&self) -> (n: Node) {
        let mut attributes: Vec<Option<Scalar>> = Vec::new();
        attributes.push(
            id_scalar(match &self.para_id {
                Some(id) => Some(id.value),
                None => None,
            }),
        );
        let mut slots: Vec<Vec<Node>> = Vec::new();
        slots.push(node_of_one(&self.property));
        slots.push(nodes_of(&self.content));
        let n = Node { kind: PARAGRAPH, attributes, slots, text: String::new() };
        proof {
            lemma_kind_paragraph();
            let dv = Self::descriptor_spec();
            let want = self.node();
            assert(n@.attributes =~= want.attributes);
            assert(n@.slots[0] =~= want.slots[0]);
            assert(n@.slots[1] =~= want.slots[1]);
            assert(n@.slots =~= want.slots);
            assert(n@.text =~= want.text);
            self.lemma_node_conforms();
        }
        n
    }

    fn from_node(n: &Node) -> (r: Paragraph) {
        proof {
            lemma_kind_paragraph();
            let dv = Self::descriptor_spec();
            assert(n@.attributes[0] == value_view(n.attributes@[0]));
            assert(n@.slots[0].len() == n.slots@[0]@.len());
            assert(n@.slots[1].len() == n.slots@[1]@.len());
            assert forall|j: int| 0 <= j < n.slots[0]@.len() implies (#[trigger] n.slots[0]@[j])@.conforms(
                model(),
            ) && ParagraphProperty::accepts(n.slots[0]@[j]@.kind) by {
                assert(n@.slots[0][j] == n.slots[0]@[j]@);
                assert(dv.slots[0].accepts(n@.slots[0][j].kind));
            }
            assert forall|j: int| 0 <= j < n.slots[1]@.len() implies (#[trigger] n.slots[1]@[j])@.conforms(
                model(),
            ) && ParagraphContent::accepts(n.slots[1]@[j]@.kind) by {
                assert(n@.slots[1][j] == n.slots[1]@[j]@);
                assert(dv.slots[1].accepts(n@.slots[1][j].kind));
            }
        }
        let r = Paragraph {
            para_id: match id_of(&n.attributes[0]) {
                Some(value) => Some(ParagraphId { value }),
                None => None,
            },
            property: ParagraphProperty::from_node(&n.slots[0][0]),
            content: items_of(&n.slots[1]),
        };
        proof {
            let got = r.node();
            assert(got.attributes =~= n@.attributes);
            assert(got.slots[0] =~= n@.slots[0]);
            assert(got.slots[1] =~= n@.slots[1]);
            assert(got.slots =~= n@.slots);
            assert(got.text =~= n@.text);
        }
        r
    }
}

impl Element for Paragraph {
    open spec fn tokens(&self) -> Seq<Tok> {
        element_tokens(model(), self.node())
    }

    open spec fn kind_spec() -> nat {
        PARAGRAPH as nat
    }

    proof fn lemma_kind() {
        lemma_kind_paragraph();
    }

    fn kind() -> (k: usize) {
        proof {
            lemma_kind_paragraph();
        }
        PARAGRAPH
    }

    fn to_writer(&self, sink: &mut Sink) -> (r: Result<(), WriteError>) {
        let schema = schema();
        let node = self.to_node();
        encode_element(&schema, &node, sink)
    }
}

impl Paragraph {
    /// The element that the default value stands for.
    pub open spec fn initial() -> NodeView {
        NodeView {
            kind: PARAGRAPH as nat,
            attributes: seq![None],
            slots: seq![seq![ParagraphProperty::initial()], Seq::empty()],
            text: Seq::empty(),
        }
    }
}

impl Default for Paragraph {
    fn default() -> (r: Paragraph)
        ensures
            r.node() == Self::initial(),
    {
        let r = Paragraph {
            para_id: None,
            property: ParagraphProperty::default(),
            content: Vec::new(),
        };
        proof {
            let got = r.node();
            let want = Self::initial();
            assert(got.attributes =~= want.attributes);
            assert(got.slots[0] =~= want.slots[0]);
            assert(got.slots[1] =~= want.slots[1]);
            assert(got.slots =~= want.slots);
            assert(got.text =~= want.text);
        }
        r
    }
}

impl Paragraph {
    /// The default stands for an element of the model, all of which is
    /// written.
    pub proof fn lemma_initial()
        ensures
            Self::initial().conforms(model()),
            Self::initial().written_back(model()),
            Self::initial().kind == PARAGRAPH,
    {
        lemma_kind_paragraph();
        let dv = Self::descriptor_spec();
        let n = Self::initial();
        ParagraphProperty::lemma_initial();
        assert(n.attributes_fit(model(), true));
        assert(n.slots_fit(model(), true));
        assert forall|i: int, j: int|
            0 <= i < n.slots.len() && 0 <= j < n.slots[i].len() implies dv.slots[i].accepts(
            (#[trigger] n.slots[i][j]).kind,
        ) by {
            if i == 0 {
                assert(dv.slots[0].alternatives[0].kind == n.slots[i][j].kind);
            }
        }
        assert(n.children_fit(model()));
    }

    /// What is written of the default is read as the default.
    pub proof fn lemma_default_round_trip(rest: Seq<Tok>)
        ensures
            decode_element_spec(
                model(),
                PARAGRAPH as nat,
                element_tokens(model(), Self::initial()).skip(1) + rest,
            ) == Ok::<_, DecodeError>((Self::initial(), rest)),
    {
        Self::lemma_initial();
        lemma_model_well_formed();
        lemma_round_trip(model(), Self::initial(), rest);
    }
}

impl Paragraph {
    /// The same with `value` as its `property`.
    pub fn property(self, value: ParagraphProperty) -> (r: Paragraph)
        ensures
            r == (Paragraph { property: value, ..self }),
    {
        let mut r = self;
        r.property = value;
        r
    }
}

/// The identifier of a paragraph: a 32-bit number, written in eight
/// hexadecimal digits.
#[derive(Clone, Copy, Debug, PartialEq, Eq, Structural)]
pub struct ParagraphId {
    pub value: u32,
}

impl ParagraphId {
    /// The identifier in eight upper-case hexadecimal digits.
    pub fn to_string(&self) -> (s: String)
        ensures
            s@ == hex_text(self.value as nat, 8),
    {
        render_hex(self.value)
    }

    /// The identifier that `s` denotes: hexadecimal digits and nothing else.
    pub fn from_str(s: &str) -> (r: Option<ParagraphId>)
        ensures
            parse_hex_spec(s@) == match r {
                Some(id) => Some(id.value),
                None => None,
            },
    {
        match parse_hex(s) {
            Some(value) => Some(ParagraphId { value }),
            None => None,
        }
    }
}

impl Default for ParagraphId {
    fn default() -> (r: ParagraphId)
        ensures
            r.value == 0,
    {
        ParagraphId { value: 0 }
    }
}

/// The texts that one item of a paragraph holds, in order: those of a run,
/// and those of the run of a link.
pub open spec fn item_texts(item: ParagraphContent) -> Seq<Seq<char>> {
    match item {
        ParagraphContent::Run(run) => run_texts(run.content@),
        ParagraphContent::Link(link) => run_texts(link.content.content@),
        _ => Seq::empty(),
    }
}

/// The texts that the content of a paragraph holds, in order: those of its
/// runs and of the runs of its links.
pub open spec fn paragraph_texts(content: Seq<ParagraphContent>) -> Seq<Seq<char>>
    decreases content.len(),
{
    if content.len() == 0 {
        Seq::empty()
    } else {
        paragraph_texts(content.drop_last()) + item_texts(content.last())
    }
}

/// Whether `after` is the item `before` with `text` in place of the text with
/// the index `index` among its texts, and with nothing else changed.
pub open spec fn item_with_text(
    before: ParagraphContent,
    after: ParagraphContent,
    index: int,
    text: String,
) -> bool {
    match (before, after) {
        (ParagraphContent::Run(b), ParagraphContent::Run(a)) => run_with_text(b, a, index, text),
        (ParagraphContent::Link(b), ParagraphContent::Link(a)) => a.id == b.id && a.anchor
            == b.anchor && run_with_text(b.content, a.content, index, text),
        _ => false,
    }
}

/// Whether `after` is the content `before` with `text` in place of the text
/// with the index `index` among its texts, and with nothing else changed.
pub open spec fn content_with_text(
    before: Seq<ParagraphContent>,
    after: Seq<ParagraphContent>,
    index: int,
    text: String,
) -> bool {
    exists|i: int|
        0 <= i < before.len() && after == before.update(i, after[i]) && item_with_text(
            #[trigger] before[i],
            after[i],
            index - paragraph_texts(before.take(i)).len(),
            text,
        )
}

/// The texts of a paragraph with one text of one item replaced are the texts
/// of the paragraph, with that one replaced.
pub proof fn lemma_paragraph_texts_update(
    content: Seq<ParagraphContent>,
    i: int,
    item: ParagraphContent,
    k: int,
    text: Seq<char>,
)
    requires
        0 <= i < content.len(),
        0 <= k < item_texts(content[i]).len(),
        item_texts(item) == item_texts(content[i]).update(k, text),
    ensures
        paragraph_texts(content.take(i)).len() + k < paragraph_texts(content).len(),
        paragraph_texts(content)[paragraph_texts(content.take(i)).len() + k] == item_texts(
            content[i],
        )[k],
        paragraph_texts(content.update(i, item)) == paragraph_texts(content).update(
            paragraph_texts(content.take(i)).len() + k,
            text,
        ),
    decreases content.len(),
{
    let last = content.len() - 1;
    let front = content.drop_last();
    if i == last {
        assert(content.take(i) =~= front);
        assert(content.update(i, item).drop_last() =~= front);
        assert(paragraph_texts(content.update(i, item)) =~= paragraph_texts(content).update(
            paragraph_texts(front).len() + k,
            text,
        ));
    } else {
        lemma_paragraph_texts_update(front, i, item, k, text);
        assert(front.take(i) =~= content.take(i));
        assert(content.update(i, item).drop_last() =~= front.update(i, item));
        assert(content.update(i, item).last() == content.last());
        assert(paragraph_texts(content.update(i, item)) =~= paragraph_texts(content).update(
            paragraph_texts(content.take(i)).len() + k,
            text,
        ));
    }
}

impl Paragraph {
    /// The same paragraph with `content` behind what it holds.
    pub fn push<T: Into<ParagraphContent>>(self, content: T) -> (r: Paragraph)
        ensures
            T::obeys_into_spec() ==> r.content@ == self.content@.push(content.into_spec()),
            r.para_id == self.para_id,
            r.property == self.property,
    {
        let mut r = self;
        r.content.push(content.into());
        r
    }

    /// The same paragraph with one more run, which holds the text `content`
    /// and has the default properties.
    pub fn push_text(self, content: &str) -> (r: Paragraph)
        ensures
            r.content@.len() == self.content@.len() + 1,
            r.content@.drop_last() == self.content@,
            r.content@.last() matches ParagraphContent::Run(run) && run.property.node()
                == CharacterProperty::initial() && run_texts(run.content@) == seq![content@]
                && run.content@.len() == 1 && (run.content@[0] matches RunContent::Text(t)
                && t.text@ == content@ && t.space is None),
            r.para_id == self.para_id,
            r.property == self.property,
    {
        let mut r = self;
        let mut content_of_run: Vec<RunContent> = Vec::new();
        content_of_run.push(RunContent::Text(Text { space: None, text: String::from_str(content) }));
        let run = Run { property: CharacterProperty::default(), content: content_of_run };
        proof {
            assert(run.content@.drop_last() =~= Seq::<RunContent>::empty());
            assert(run_texts(Seq::<RunContent>::empty()) + seq![content@] =~= seq![content@]);
        }
        r.content.push(ParagraphContent::Run(run));
        assert(r.content@.drop_last() =~= self.content@);
        r
    }

    /// The texts that the paragraph holds, in order, from its runs and from
    /// the runs of its links.
    pub fn iter_text(&self) -> (r: Vec<&String>)
        ensures
            text_views(r@) == paragraph_texts(self.content@),
    {
        let mut texts: Vec<&String> = Vec::new();
        assert(self.content@.take(0) =~= Seq::<ParagraphContent>::empty());
        assert(text_views(texts@) =~= paragraph_texts(Seq::<ParagraphContent>::empty()));
        let mut i: usize = 0;
        while i < self.content.len()
            invariant
                i <= self.content.len(),
                text_views(texts@) == paragraph_texts(self.content@.take(i as int)),
            decreases self.content.len() - i,
        {
            proof {
                assert(self.content@.take(i + 1).drop_last() =~= self.content@.take(i as int));
            }
            match &self.content[i] {
                ParagraphContent::Run(run) => {
                    run.collect_text(&mut texts);
                },
                ParagraphContent::Link(link) => {
                    link.content.collect_text(&mut texts);
                },
                _ => {
                    assert(paragraph_texts(self.content@.take(i as int)) + Seq::<
                        Seq<char>,
                    >::empty() =~= paragraph_texts(self.content@.take(i as int)));
                },
            }
            i = i + 1;
        }
        assert(self.content@.take(i as int) =~= self.content@);
        texts
    }

    /// The text with the index `index` among the texts of the paragraph, to
    /// be changed in place; `None` where the paragraph holds no more than
    /// `index` texts. Nothing else of the paragraph changes.
    pub fn iter_text_mut(&mut self, index: usize) -> (r: Option<&mut String>)
        ensures
            r is Some <==> index < paragraph_texts(old(self).content@).len(),
            match r {
                Some(t) => (*t)@ == paragraph_texts(old(self).content@)[index as int]
                    && paragraph_texts(final(self).content@) == paragraph_texts(
                    old(self).content@,
                ).update(index as int, (*final(t))@) && final(self).para_id == old(self).para_id
                    && final(self).property == old(self).property && content_with_text(
                    old(self).content@,
                    final(self).content@,
                    index as int,
                    *final(t),
                ),
                None => *final(self) == *old(self),
            },
    {
        let ghost before = self.content@;
        let mut seen: usize = 0;
        let mut i: usize = 0;
        assert(before.take(0) =~= Seq::<ParagraphContent>::empty());
        while i < self.content.len()
            invariant
                i <= self.content.len(),
                before == self.content@,
                *self == *old(self),
                seen <= index,
                seen == paragraph_texts(before.take(i as int)).len(),
            decreases self.content.len() - i,
        {
            proof {
                assert(before.take(i + 1).drop_last() =~= before.take(i as int));
            }
            let n = match &self.content[i] {
                ParagraphContent::Run(run) => run.text_count(),
                ParagraphContent::Link(link) => link.content.text_count(),
                _ => 0,
            };
            let k = index - seen;
            if k < n {
                return match &mut self.content[i] {
                    ParagraphContent::Run(run) => {
                        let ghost after = *final(run);
                        let r = run.iter_text_mut(k);
                        proof {
                            lemma_paragraph_texts_update(
                                before,
                                i as int,
                                ParagraphContent::Run(after),
                                k as int,
                                (*final(r->0))@,
                            );
                        }
                        r
                    },
                    ParagraphContent::Link(link) => {
                        let ghost after = *final(link);
                        let r = link.content.iter_text_mut(k);
                        proof {
                            lemma_paragraph_texts_update(
                                before,
                                i as int,
                                ParagraphContent::Link(after),
                                k as int,
                                (*final(r->0))@,
                            );
                        }
                        r
                    },
                    _ => None,
                };
            }
            seen = seen + n;
            i = i + 1;
        }
        assert(before.take(i as int) =~= before);
        None
    }
}

} // verus!
