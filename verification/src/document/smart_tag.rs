//! A smart tag around a part of a paragraph.

use crate::catalog::{
    lemma_kind_smart_tag, lemma_model_well_formed, model, schema, BOOKMARK_END, BOOKMARK_START,
    COMMENT_RANGE_END, COMMENT_RANGE_START, HYPERLINK, RUN, SMART_TAG,
};
use crate::decode::decode_element_spec;
use crate::document::paragraph::ParagraphContent;
use crate::encode::{element_tokens, encode_element};
use crate::entity::{items_of, nodes_of, nodes_of_spec, Element, Entity};
use crate::error::{DecodeError, WriteError};
use crate::laws::lemma_round_trip;
use crate::node::{Node, NodeView, Scalar};
use crate::schema::{
    Alternative, AlternativeView, Attribute, Cardinality, Content, Descriptor, DescriptorView,
    Name, NameView, Slot, SlotView,
};
use crate::token::Tok;
use crate::writer::Sink;
use vstd::prelude::*;

verus! {

/// A smart tag around a part of a paragraph.
#[derive(Debug, PartialEq)]
pub struct SmartTag {
    /// what the tag holds, in order
    pub content: Vec<ParagraphContent>,
}

impl SmartTag {
    /// What the mapping knows of the element: its tag, its attributes and
    /// the slots of its children.
    pub open spec fn descriptor_spec() -> DescriptorView {
        DescriptorView {
            tag: NameView { prefix: "w"@, local: "smartTag"@ },
            attributes: Seq::empty(),
            slots: seq![
                SlotView {
                    cardinality: Cardinality::Many,
                    alternatives: seq![
                        AlternativeView {
                            tag: NameView { prefix: "w"@, local: "commentRangeStart"@ },
                            kind: COMMENT_RANGE_START as nat,
                        },
                        AlternativeView {
                            tag: NameView { prefix: "w"@, local: "commentRangeEnd"@ },
                            kind: COMMENT_RANGE_END as nat,
                        },
                        AlternativeView {
                            tag: NameView { prefix: "w"@, local: "r"@ },
                            kind: RUN as nat,
                        },
                        AlternativeView {
                            tag: NameView { prefix: "w"@, local: "hyperlink"@ },
                            kind: HYPERLINK as nat,
                        },
                        AlternativeView {
                            tag: NameView { prefix: "w"@, local: "bookmarkStart"@ },
                            kind: BOOKMARK_START as nat,
                        },
                        AlternativeView {
                            tag: NameView { prefix: "w"@, local: "bookmarkEnd"@ },
                            kind: BOOKMARK_END as nat,
                        },
                    ],
                },
            ],
            content: Content::Children,
        }
    }

    /// What the mapping knows of the element.
    pub fn descriptor() -> (d: Descriptor)
        ensures
            d@ == Self::descriptor_spec(),
    {
        let attributes: Vec<Attribute> = Vec::new();
        let mut slots: Vec<Slot> = Vec::new();
        let mut alternatives0: Vec<Alternative> = Vec::new();
        alternatives0.push(Alternative::new("w", "commentRangeStart", COMMENT_RANGE_START));
        alternatives0.push(Alternative::new("w", "commentRangeEnd", COMMENT_RANGE_END));
        alternatives0.push(Alternative::new("w", "r", RUN));
        alternatives0.push(Alternative::new("w", "hyperlink", HYPERLINK));
        alternatives0.push(Alternative::new("w", "bookmarkStart", BOOKMARK_START));
        alternatives0.push(Alternative::new("w", "bookmarkEnd", BOOKMARK_END));
        slots.push(Slot::many(alternatives0));
        let d = Descriptor {
            tag: Name::new("w", "smartTag"),
            attributes,
            slots,
            content: Content::Children,
        };
        proof {
            let want = Self::descriptor_spec();
            assert(d@.attributes =~= want.attributes);
            assert(d@.slots[0].alternatives =~= want.slots[0].alternatives);
            assert(d@.slots =~= want.slots);
        }
        d
    }

    /// No two attributes of the element have the same name, and no two of its
    /// slots accept the same tag.
    pub proof fn lemma_descriptor_distinct()
        ensures
            Self::descriptor_spec().distinct(),
    {
        reveal_strlit("bookmarkEnd");
        reveal_strlit("bookmarkStart");
        reveal_strlit("commentRangeEnd");
        reveal_strlit("commentRangeStart");
        reveal_strlit("hyperlink");
        reveal_strlit("r");
        reveal_strlit("w");
        assert("commentRangeStart"@.len() != "commentRangeEnd"@.len());
        assert("commentRangeStart"@.len() != "r"@.len());
        assert("commentRangeStart"@.len() != "hyperlink"@.len());
        assert("commentRangeStart"@.len() != "bookmarkStart"@.len());
        assert("commentRangeStart"@.len() != "bookmarkEnd"@.len());
        assert("commentRangeEnd"@.len() != "r"@.len());
        assert("commentRangeEnd"@.len() != "hyperlink"@.len());
        assert("commentRangeEnd"@.len() != "bookmarkStart"@.len());
        assert("commentRangeEnd"@.len() != "bookmarkEnd"@.len());
        assert("r"@.len() != "hyperlink"@.len());
        assert("r"@.len() != "bookmarkStart"@.len());
        assert("r"@.len() != "bookmarkEnd"@.len());
        assert("hyperlink"@.len() != "bookmarkStart"@.len());
        assert("hyperlink"@.len() != "bookmarkEnd"@.len());
        assert("bookmarkStart"@.len() != "bookmarkEnd"@.len());
    }
}

impl Entity for SmartTag {
    open spec fn accepts(kind: nat) -> bool {
        kind == SMART_TAG
    }

    open spec fn node(&self) -> NodeView {
        NodeView {
            kind: SMART_TAG as nat,
            attributes: Seq::empty(),
            slots: seq![nodes_of_spec(self.content@)],
            text: Seq::empty(),
        }
    }

    proof fn lemma_node_conforms(&self) {
        lemma_kind_smart_tag();
        let dv = Self::descriptor_spec();
        let n = self.node();
        assert forall|j: int| 0 <= j < self.content@.len() implies (#[trigger] self.content@[j]).node().conforms(
            model(),
        ) && ParagraphContent::accepts(self.content@[j].node().kind) by {
            self.content@[j].lemma_node_conforms();
        }
        assert(n.attributes_fit(model(), true));
        assert(n.slots_fit(model(), true));
        assert forall|i: int, j: int|
            0 <= i < n.slots.len() && 0 <= j < n.slots[i].len() implies dv.slots[i].accepts(
            (#[trigger] n.slots[i][j]).kind,
        ) by {
            if i == 0 {
                assert(ParagraphContent::accepts(n.slots[i][j].kind));
                if n.slots[i][j].kind == COMMENT_RANGE_START {
                    assert(dv.slots[0].alternatives[0].kind == n.slots[i][j].kind);
                } else if n.slots[i][j].kind == COMMENT_RANGE_END {
                    assert(dv.slots[0].alternatives[1].kind == n.slots[i][j].kind);
                } else if n.slots[i][j].kind == RUN {
                    assert(dv.slots[0].alternatives[2].kind == n.slots[i][j].kind);
                } else if n.slots[i][j].kind == HYPERLINK {
                    assert(dv.slots[0].alternatives[3].kind == n.slots[i][j].kind);
                } else if n.slots[i][j].kind == BOOKMARK_START {
                    assert(dv.slots[0].alternatives[4].kind == n.slots[i][j].kind);
                } else if n.slots[i][j].kind == BOOKMARK_END {
                    assert(dv.slots[0].alternatives[5].kind == n.slots[i][j].kind);
                }
            }
        }
        assert forall|i: int, j: int|
            0 <= i < n.slots.len() && 0 <= j < n.slots[i].len() implies (#[trigger] n.slots[i][j]).conforms(
            model(),
        ) by {
            if i == 0 {
                assert(n.slots[i][j] == self.content@[j].node());
            }
        }
        assert(n.children_fit(model()));
    }

    fn to_node(&self) -> (n: Node) {
        let attributes: Vec<Option<Scalar>> = Vec::new();
        let mut slots: Vec<Vec<Node>> = Vec::new();
        slots.push(nodes_of(&self.content));
        let n = Node { kind: SMART_TAG, attributes, slots, text: String::new() };
        proof {
            lemma_kind_smart_tag();
            let dv = Self::descriptor_spec();
            let want = self.node();
            assert(n@.attributes =~= want.attributes);
            assert(n@.slots[0] =~= want.slots[0]);
            assert(n@.slots =~= want.slots);
            assert(n@.text =~= want.text);
            self.lemma_node_conforms();
        }
        n
    }

    fn from_node(n: &Node) -> (r: SmartTag) {
        proof {
            lemma_kind_smart_tag();
            let dv = Self::descriptor_spec();
            assert(n@.slots[0].len() == n.slots@[0]@.len());
            assert forall|j: int| 0 <= j < n.slots[0]@.len() implies (#[trigger] n.slots[0]@[j])@.conforms(
                model(),
            ) && ParagraphContent::accepts(n.slots[0]@[j]@.kind) by {
                assert(n@.slots[0][j] == n.slots[0]@[j]@);
                assert(dv.slots[0].accepts(n@.slots[0][j].kind));
            }
        }
        let r = SmartTag {
            content: items_of(&n.slots[0]),
        };
        proof {
            let got = r.node();
            assert(got.attributes =~= n@.attributes);
            assert(got.slots[0] =~= n@.slots[0]);
            assert(got.slots =~= n@.slots);
            assert(got.text =~= n@.text);
        }
        r
    }
}

impl Element for SmartTag {
    open spec fn tokens(&self) -> Seq<Tok> {
        element_tokens(model(), self.node())
    }

    open spec fn kind_spec() -> nat {
        SMART_TAG as nat
    }

    proof fn lemma_kind() {
        lemma_kind_smart_tag();
    }

    fn kind() -> (k: usize) {
        proof {
            lemma_kind_smart_tag();
        }
        SMART_TAG
    }

    fn to_writer(&self, sink: &mut Sink) -> (r: Result<(), WriteError>) {
        let schema = schema();
        let node = self.to_node();
        encode_element(&schema, &node, sink)
    }
}

impl SmartTag {
    /// The element that the default value stands for.
    pub open spec fn initial() -> NodeView {
        NodeView {
            kind: SMART_TAG as nat,
            attributes: Seq::empty(),
            slots: seq![Seq::empty()],
            text: Seq::empty(),
        }
    }
}

impl Default for SmartTag {
    fn default() -> (r: SmartTag)
        ensures
            r.node() == Self::initial(),
    {
        let r = SmartTag {
            content: Vec::new(),
        };
        proof {
            let got = r.node();
            let want = Self::initial();
            assert(got.attributes =~= want.attributes);
            assert(got.slots[0] =~= want.slots[0]);
            assert(got.slots =~= want.slots);
            assert(got.text =~= want.text);
        }
        r
    }
}

impl SmartTag {
    /// The default stands for an element of the model, all of which is
    /// written.
    pub proof fn lemma_initial()
        ensures
            Self::initial().conforms(model()),
            Self::initial().written_back(model()),
            Self::initial().kind == SMART_TAG,
    {
        lemma_kind_smart_tag();
        let dv = Self::descriptor_spec();
        let n = Self::initial();
        assert(n.attributes_fit(model(), true));
        assert(n.slots_fit(model(), true));
        assert forall|i: int, j: int|
            0 <= i < n.slots.len() && 0 <= j < n.slots[i].len() implies dv.slots[i].accepts(
            (#[trigger] n.slots[i][j]).kind,
        ) by {
        }
        assert(n.children_fit(model()));
    }

    /// What is written of the default is read as the default.
    pub proof fn lemma_default_round_trip(rest: Seq<Tok>)
        ensures
            decode_element_spec(
                model(),
                SMART_TAG as nat,
                element_tokens(model(), Self::initial()).skip(1) + rest,
            ) == Ok::<_, DecodeError>((Self::initial(), rest)),
    {
        Self::lemma_initial();
        lemma_model_well_formed();
        lemma_round_trip(model(), Self::initial(), rest);
    }
}

} // verus!
