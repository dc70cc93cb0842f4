//! The alignment of a paragraph.

use crate::catalog::{
    lemma_kind_justification, lemma_symbols_justification_val, model, schema, JUSTIFICATION,
    JUSTIFICATION_VAL_SYMBOLS,
};
use crate::encode::{element_tokens, encode_element};
use crate::entity::{symbol_of, Element, Entity};
use crate::error::WriteError;
use crate::node::{value_view, Node, NodeView, Scalar, ScalarView};
use crate::numbering::level::Start;
use crate::scalar::{find_symbol, fingerprint, is_first, lemma_symbol_round_trip, symbol_index};
use crate::schema::{
    Attribute, AttributeView, Codec, Content, Descriptor, DescriptorView, Name, NameView, Slot,
};
use crate::token::Tok;
use crate::writer::Sink;
use vstd::prelude::*;
use vstd::string::StringExecFns;

verus! {

/// How the lines of a paragraph are aligned.
#[derive(Clone, Copy, Debug, PartialEq, Eq, Structural)]
pub enum JustificationVal {
    Both,
    Center,
    Distribute,
    End,
    HighKashida,
    Left,
    LowKashida,
    MediumKashida,
    NumTab,
    Right,
    Start,
    ThaiDistribute,
}

impl JustificationVal {
    /// The texts of the values, each at the index of its value.
    pub open spec fn symbols_spec() -> Seq<Seq<char>> {
        seq!["both"@, "center"@, "distribute"@, "end"@, "highKashida"@, "left"@, "lowKashida"@, "mediumKashida"@, "numTab"@, "right"@, "start"@, "thaiDistribute"@]
    }

    /// The texts of the values, each at the index of its value.
    pub fn symbols() -> (table: Vec<String>)
        ensures
            Seq::new(table@.len(), |i: int| table@[i]@) == Self::symbols_spec(),
    {
        let mut table: Vec<String> = Vec::new();
        table.push(String::from_str("both"));
        table.push(String::from_str("center"));
        table.push(String::from_str("distribute"));
        table.push(String::from_str("end"));
        table.push(String::from_str("highKashida"));
        table.push(String::from_str("left"));
        table.push(String::from_str("lowKashida"));
        table.push(String::from_str("mediumKashida"));
        table.push(String::from_str("numTab"));
        table.push(String::from_str("right"));
        table.push(String::from_str("start"));
        table.push(String::from_str("thaiDistribute"));
        assert(Seq::new(table@.len(), |i: int| table@[i]@) =~= Self::symbols_spec());
        table
    }

    /// The index of the value in the table of its texts.
    pub open spec fn index_spec(self) -> usize {
        match self {
            JustificationVal::Both => 0,
            JustificationVal::Center => 1,
            JustificationVal::Distribute => 2,
            JustificationVal::End => 3,
            JustificationVal::HighKashida => 4,
            JustificationVal::Left => 5,
            JustificationVal::LowKashida => 6,
            JustificationVal::MediumKashida => 7,
            JustificationVal::NumTab => 8,
            JustificationVal::Right => 9,
            JustificationVal::Start => 10,
            JustificationVal::ThaiDistribute => 11,
        }
    }

    /// The index of the value in the table of its texts.
    pub fn index(&self) -> (i: usize)
        ensures
            i == self.index_spec(),
            i < 12,
    {
        match self {
            JustificationVal::Both => 0,
            JustificationVal::Center => 1,
            JustificationVal::Distribute => 2,
            JustificationVal::End => 3,
            JustificationVal::HighKashida => 4,
            JustificationVal::Left => 5,
            JustificationVal::LowKashida => 6,
            JustificationVal::MediumKashida => 7,
            JustificationVal::NumTab => 8,
            JustificationVal::Right => 9,
            JustificationVal::Start => 10,
            JustificationVal::ThaiDistribute => 11,
        }
    }

    /// The value at an index of the table.
    pub fn from_index(i: usize) -> (r: JustificationVal)
        requires
            i < 12,
        ensures
            r.index_spec() == i,
    {
        if i == 0 {
            JustificationVal::Both
        } else if i == 1 {
            JustificationVal::Center
        } else if i == 2 {
            JustificationVal::Distribute
        } else if i == 3 {
            JustificationVal::End
        } else if i == 4 {
            JustificationVal::HighKashida
        } else if i == 5 {
            JustificationVal::Left
        } else if i == 6 {
            JustificationVal::LowKashida
        } else if i == 7 {
            JustificationVal::MediumKashida
        } else if i == 8 {
            JustificationVal::NumTab
        } else if i == 9 {
            JustificationVal::Right
        } else if i == 10 {
            JustificationVal::Start
        } else {
            JustificationVal::ThaiDistribute
        }
    }

    /// The text of the value.
    pub fn as_str(&self) -> (s: &'static str)
        ensures
            s@ == Self::symbols_spec()[self.index_spec() as int],
    {
        match self {
            JustificationVal::Both => "both",
            JustificationVal::Center => "center",
            JustificationVal::Distribute => "distribute",
            JustificationVal::End => "end",
            JustificationVal::HighKashida => "highKashida",
            JustificationVal::Left => "left",
            JustificationVal::LowKashida => "lowKashida",
            JustificationVal::MediumKashida => "mediumKashida",
            JustificationVal::NumTab => "numTab",
            JustificationVal::Right => "right",
            JustificationVal::Start => "start",
            JustificationVal::ThaiDistribute => "thaiDistribute",
        }
    }

    /// The value that a text denotes; `None` for a text that is not in the
    /// table.
    pub fn from_str(s: &str) -> (r: Option<JustificationVal>)
        ensures
            symbol_index(Self::symbols_spec(), s@) == match r {
                Some(v) => Some(v.index_spec()),
                None => None,
            },
    {
        let table = Self::symbols();
        match find_symbol(&table, s) {
            Some(i) => {
                assert(is_first(Self::symbols_spec(), s@, i as int));
                Some(Self::from_index(i))
            },
            None => None,
        }
    }

    /// No two values have the same text.
    pub proof fn lemma_symbols_distinct()
        ensures
            Self::symbols_spec().len() == 12,
            forall|a: int, b: int|
                0 <= a < b < 12 ==> #[trigger] Self::symbols_spec()[a] != #[trigger] Self::symbols_spec()[b],
    {
        reveal_strlit("both");
        reveal_strlit("center");
        reveal_strlit("distribute");
        reveal_strlit("end");
        reveal_strlit("highKashida");
        reveal_strlit("left");
        reveal_strlit("lowKashida");
        reveal_strlit("mediumKashida");
        reveal_strlit("numTab");
        reveal_strlit("right");
        reveal_strlit("start");
        reveal_strlit("thaiDistribute");
        assert(fingerprint("both"@, 0, 0) == (4int, 'b', 'h'));
        assert(fingerprint("center"@, 0, 0) == (6int, 'c', 'r'));
        assert(fingerprint("distribute"@, 0, 0) == (10int, 'd', 'e'));
        assert(fingerprint("end"@, 0, 0) == (3int, 'e', 'd'));
        assert(fingerprint("highKashida"@, 0, 0) == (11int, 'h', 'a'));
        assert(fingerprint("left"@, 0, 0) == (4int, 'l', 't'));
        assert(fingerprint("lowKashida"@, 0, 0) == (10int, 'l', 'a'));
        assert(fingerprint("mediumKashida"@, 0, 0) == (13int, 'm', 'a'));
        assert(fingerprint("numTab"@, 0, 0) == (6int, 'n', 'b'));
        assert(fingerprint("right"@, 0, 0) == (5int, 'r', 't'));
        assert(fingerprint("start"@, 0, 0) == (5int, 's', 't'));
        assert(fingerprint("thaiDistribute"@, 0, 0) == (14int, 't', 'e'));
        let t = Self::symbols_spec();
        assert forall|a: int, b: int| 0 <= a < b < 12 implies #[trigger] t[a] != #[trigger] t[b] by {
            assert(fingerprint(t[a], 0, 0) != fingerprint(t[b], 0, 0));
        }
    }

    /// Every value is read back from its text.
    pub proof fn lemma_text_round_trip(v: JustificationVal)
        ensures
            symbol_index(Self::symbols_spec(), Self::symbols_spec()[v.index_spec() as int]) == Some(
                v.index_spec(),
            ),
    {
        Self::lemma_symbols_distinct();
        lemma_symbol_round_trip(Self::symbols_spec(), v.index_spec() as int);
    }
}

/// The alignment of a paragraph.
#[derive(Debug, PartialEq)]
pub struct Justification {
    pub value: JustificationVal,
}

impl Justification {
    /// What the mapping knows of the element: its tag, its attributes and
    /// the slots of its children.
    pub open spec fn descriptor_spec() -> DescriptorView {
        DescriptorView {
            tag: NameView { prefix: "w"@, local: "jc"@ },
            attributes: seq![
                AttributeView {
                    name: NameView { prefix: "w"@, local: "val"@ },
                    codec: Codec::Symbol(JUSTIFICATION_VAL_SYMBOLS),
                    required: true,
                },
            ],
            slots: Seq::empty(),
            content: Content::Children,
        }
    }

    /// What the mapping knows of the element.
    pub fn descriptor() -> (d: Descriptor)
        ensures
            d@ == Self::descriptor_spec(),
    {
        let mut attributes: Vec<Attribute> = Vec::new();
        attributes.push(Attribute::new("w", "val", Codec::Symbol(JUSTIFICATION_VAL_SYMBOLS), true));
        let slots: Vec<Slot> = Vec::new();
        let d = Descriptor {
            tag: Name::new("w", "jc"),
            attributes,
            slots,
            content: Content::Children,
        };
        proof {
            let want = Self::descriptor_spec();
            assert(d@.attributes =~= want.attributes);
            assert(d@.slots =~= want.slots);
        }
        d
    }

    /// No two attributes of the element have the same name, and no two of its
    /// slots accept the same tag.
    pub proof fn lemma_descriptor_distinct()
        ensures
            Self::descriptor_spec().distinct(),
    {
    }
}

impl Entity for Justification {
    open spec fn accepts(kind: nat) -> bool {
        kind == JUSTIFICATION
    }

    open spec fn node(&self) -> NodeView {
        NodeView {
            kind: JUSTIFICATION as nat,
            attributes: seq![
                Some(ScalarView::Symbol(self.value.index_spec())),
            ],
            slots: Seq::empty(),
            text: Seq::empty(),
        }
    }

    proof fn lemma_node_conforms(&self) {
        lemma_kind_justification();
        lemma_symbols_justification_val();
        let dv = Self::descriptor_spec();
        let n = self.node();
        assert(n.attributes_fit(model(), true));
        assert(n.slots_fit(model(), true));
        assert(n.children_fit(model()));
    }

    fn to_node(&self) -> (n: Node) {
        let mut attributes: Vec<Option<Scalar>> = Vec::new();
        attributes.push(Some(Scalar::Symbol(self.value.index())));
        let slots: Vec<Vec<Node>> = Vec::new();
        let n = Node { kind: JUSTIFICATION, attributes, slots, text: String::new() };
        proof {
            lemma_kind_justification();
            lemma_symbols_justification_val();
            let dv = Self::descriptor_spec();
            let want = self.node();
            assert(n@.attributes =~= want.attributes);
            assert(n@.slots =~= want.slots);
            assert(n@.text =~= want.text);
            self.lemma_node_conforms();
        }
        n
    }

    fn from_node(n: &Node) -> (r: Justification) {
        proof {
            lemma_kind_justification();
            let dv = Self::descriptor_spec();
            lemma_symbols_justification_val();
            assert(n@.attributes[0] == value_view(n.attributes@[0]));
        }
        let r = Justification {
            value: match symbol_of(&n.attributes[0]) {
                Some(i) => JustificationVal::from_index(i),
                None => JustificationVal::from_index(0),
            },
        };
        proof {
            let got = r.node();
            assert(got.attributes =~= n@.attributes);
            assert(got.slots =~= n@.slots);
            assert(got.text =~= n@.text);
        }
        r
    }
}

impl Element for Justification {
    open spec fn tokens(&self) -> Seq<Tok> {
        element_tokens(model(), self.node())
    }

    open spec fn kind_spec() -> nat {
        JUSTIFICATION as nat
    }

    proof fn lemma_kind() {
        lemma_kind_justification();
    }

    fn kind() -> (k: usize) {
        proof {
            lemma_kind_justification();
        }
        JUSTIFICATION
    }

    fn to_writer(&self, sink: &mut Sink) -> (r: Result<(), WriteError>) {
        let schema = schema();
        let node = self.to_node();
        encode_element(&schema, &node, sink)
    }
}

impl From<JustificationVal> for Justification {
    /// The alignment `value`.
    fn from(value: JustificationVal) -> (r: Justification) {
        Justification { value }
    }
}

impl vstd::std_specs::convert::FromSpecImpl<JustificationVal> for Justification {
    open spec fn obeys_from_spec() -> bool {
        true
    }

    open spec fn from_spec(value: JustificationVal) -> Justification {
        Justification { value }
    }
}

} // verus!
