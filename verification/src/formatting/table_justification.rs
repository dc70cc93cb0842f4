//! The alignment of a table.

use crate::catalog::{
    lemma_kind_table_justification, lemma_model_well_formed,
    lemma_symbols_table_justification_val, model, schema, TABLE_JUSTIFICATION,
    TABLE_JUSTIFICATION_VAL_SYMBOLS,
};
use crate::decode::decode_element_spec;
use crate::encode::{element_tokens, encode_element};
use crate::entity::{symbol_of, symbol_scalar, symbol_value, Element, Entity};
use crate::error::{DecodeError, WriteError};
use crate::laws::lemma_round_trip;
use crate::node::{value_view, Node, NodeView, Scalar};
use crate::numbering::level::Start;
use crate::scalar::{find_symbol, fingerprint, is_first, lemma_symbol_round_trip, symbol_index};
use crate::schema::{
    Attribute, AttributeView, Codec, Content, Descriptor, DescriptorView, Name, NameView, Slot,
};
use crate::token::Tok;
use crate::writer::Sink;
use vstd::prelude::*;
use vstd::string::StringExecFns;

verus! {

/// How a table is aligned.
#[derive(Clone, Copy, Debug, PartialEq, Eq, Structural)]
pub enum TableJustificationVal {
    Start,
    End,
    Center,
    Left,
    Right,
}

impl TableJustificationVal {
    /// The texts of the values, each at the index of its value.
    pub open spec fn symbols_spec() -> Seq<Seq<char>> {
        seq!["start"@, "end"@, "center"@, "left"@, "right"@]
    }

    /// The texts of the values, each at the index of its value.
    pub fn symbols() -> (table: Vec<String>)
        ensures
            Seq::new(table@.len(), |i: int| table@[i]@) == Self::symbols_spec(),
    {
        let mut table: Vec<String> = Vec::new();
        table.push(String::from_str("start"));
        table.push(String::from_str("end"));
        table.push(String::from_str("center"));
        table.push(String::from_str("left"));
        table.push(String::from_str("right"));
        assert(Seq::new(table@.len(), |i: int| table@[i]@) =~= Self::symbols_spec());
        table
    }

    /// The index of the value in the table of its texts.
    pub open spec fn index_spec(self) -> usize {
        match self {
            TableJustificationVal::Start => 0,
            TableJustificationVal::End => 1,
            TableJustificationVal::Center => 2,
            TableJustificationVal::Left => 3,
            TableJustificationVal::Right => 4,
        }
    }

    /// The index of the value in the table of its texts.
    pub fn index(&self) -> (i: usize)
        ensures
            i == self.index_spec(),
            i < 5,
    {
        match self {
            TableJustificationVal::Start => 0,
            TableJustificationVal::End => 1,
            TableJustificationVal::Center => 2,
            TableJustificationVal::Left => 3,
            TableJustificationVal::Right => 4,
        }
    }

    /// The value at an index of the table.
    pub fn from_index(i: usize) -> (r: TableJustificationVal)
        requires
            i < 5,
        ensures
            r.index_spec() == i,
    {
        if i == 0 {
            TableJustificationVal::Start
        } else if i == 1 {
            TableJustificationVal::End
        } else if i == 2 {
            TableJustificationVal::Center
        } else if i == 3 {
            TableJustificationVal::Left
        } else {
            TableJustificationVal::Right
        }
    }

    /// The text of the value.
    pub fn as_str(&self) -> (s: &'static str)
        ensures
            s@ == Self::symbols_spec()[self.index_spec() as int],
    {
        match self {
            TableJustificationVal::Start => "start",
            TableJustificationVal::End => "end",
            TableJustificationVal::Center => "center",
            TableJustificationVal::Left => "left",
            TableJustificationVal::Right => "right",
        }
    }

    /// The value that a text denotes; `None` for a text that is not in the
    /// table.
    pub fn from_str(s: &str) -> (r: Option<TableJustificationVal>)
        ensures
            symbol_index(Self::symbols_spec(), s@) == match r {
                Some(v) => Some(v.index_spec()),
                None => None,
            },
    {
        let table = Self::symbols();
        match find_symbol(&table, s) {
            Some(i) => {
                assert(is_first(Self::symbols_spec(), s@, i as int));
                Some(Self::from_index(i))
            },
            None => None,
        }
    }

    /// No two values have the same text.
    pub proof fn lemma_symbols_distinct()
        ensures
            Self::symbols_spec().len() == 5,
            forall|a: int, b: int|
                0 <= a < b < 5 ==> #[trigger] Self::symbols_spec()[a] != #[trigger] Self::symbols_spec()[b],
    {
        reveal_strlit("start");
        reveal_strlit("end");
        reveal_strlit("center");
        reveal_strlit("left");
        reveal_strlit("right");
        assert(fingerprint("start"@, 0, 0) == (5int, 's', 't'));
        assert(fingerprint("end"@, 0, 0) == (3int, 'e', 'd'));
        assert(fingerprint("center"@, 0, 0) == (6int, 'c', 'r'));
        assert(fingerprint("left"@, 0, 0) == (4int, 'l', 't'));
        assert(fingerprint("right"@, 0, 0) == (5int, 'r', 't'));
        let t = Self::symbols_spec();
        assert forall|a: int, b: int| 0 <= a < b < 5 implies #[trigger] t[a] != #[trigger] t[b] by {
            assert(fingerprint(t[a], 0, 0) != fingerprint(t[b], 0, 0));
        }
    }

    /// Every value is read back from its text.
    pub proof fn lemma_text_round_trip(v: TableJustificationVal)
        ensures
            symbol_index(Self::symbols_spec(), Self::symbols_spec()[v.index_spec() as int]) == Some(
                v.index_spec(),
            ),
    {
        Self::lemma_symbols_distinct();
        lemma_symbol_round_trip(Self::symbols_spec(), v.index_spec() as int);
    }
}

/// The alignment of a table.
#[derive(Debug, PartialEq)]
pub struct TableJustification {
    pub value: Option<TableJustificationVal>,
}

impl TableJustification {
    /// What the mapping knows of the element: its tag, its attributes and
    /// the slots of its children.
    pub open spec fn descriptor_spec() -> DescriptorView {
        DescriptorView {
            tag: NameView { prefix: "w"@, local: "jc"@ },
            attributes: seq![
                AttributeView {
                    name: NameView { prefix: "w"@, local: "val"@ },
                    codec: Codec::Symbol(TABLE_JUSTIFICATION_VAL_SYMBOLS),
                    required: false,
                },
            ],
            slots: Seq::empty(),
            content: Content::Children,
        }
    }

    /// What the mapping knows of the element.
    pub fn descriptor() -> (d: Descriptor)
        ensures
            d@ == Self::descriptor_spec(),
    {
        let mut attributes: Vec<Attribute> = Vec::new();
        attributes.push(Attribute::new("w", "val", Codec::Symbol(TABLE_JUSTIFICATION_VAL_SYMBOLS), false));
        let slots: Vec<Slot> = Vec::new();
        let d = Descriptor {
            tag: Name::new("w", "jc"),
            attributes,
            slots,
            content: Content::Children,
        };
        proof {
            let want = Self::descriptor_spec();
            assert(d@.attributes =~= want.attributes);
            assert(d@.slots =~= want.slots);
        }
        d
    }

    /// No two attributes of the element have the same name, and no two of its
    /// slots accept the same tag.
    pub proof fn lemma_descriptor_distinct()
        ensures
            Self::descriptor_spec().distinct(),
    {
    }
}

impl Entity for TableJustification {
    open spec fn accepts(kind: nat) -> bool {
        kind == TABLE_JUSTIFICATION
    }

    open spec fn node(&self) -> NodeView {
        NodeView {
            kind: TABLE_JUSTIFICATION as nat,
            attributes: seq![
                symbol_value(match self.value {
                    Some(s) => Some(s.index_spec()),
                    None => None,
                }),
            ],
            slots: Seq::empty(),
            text: Seq::empty(),
        }
    }

    proof fn lemma_node_conforms(&self) {
        lemma_kind_table_justification();
        lemma_symbols_table_justification_val();
        let dv = Self::descriptor_spec();
        let n = self.node();
        assert(n.attributes_fit(model(), true));
        assert(n.slots_fit(model(), true));
        assert(n.children_fit(model()));
    }

    fn to_node(&self) -> (n: Node) {
        let mut attributes: Vec<Option<Scalar>> = Vec::new();
        attributes.push(
            symbol_scalar(match &self.value {
                Some(s) => Some(s.index()),
                None => None,
            }),
        );
        let slots: Vec<Vec<Node>> = Vec::new();
        let n = Node { kind: TABLE_JUSTIFICATION, attributes, slots, text: String::new() };
        proof {
            lemma_kind_table_justification();
            lemma_symbols_table_justification_val();
            let dv = Self::descriptor_spec();
            let want = self.node();
            assert(n@.attributes =~= want.attributes);
            assert(n@.slots =~= want.slots);
            assert(n@.text =~= want.text);
            self.lemma_node_conforms();
        }
        n
    }

    fn from_node(n: &Node) -> (r: TableJustification) {
        proof {
            lemma_kind_table_justification();
            let dv = Self::descriptor_spec();
            lemma_symbols_table_justification_val();
            assert(n@.attributes[0] == value_view(n.attributes@[0]));
        }
        let r = TableJustification {
            value: match symbol_of(&n.attributes[0]) {
                Some(i) => Some(TableJustificationVal::from_index(i)),
                None => None,
            },
        };
        proof {
            let got = r.node();
            assert(got.attributes =~= n@.attributes);
            assert(got.slots =~= n@.slots);
            assert(got.text =~= n@.text);
        }
        r
    }
}

impl Element for TableJustification {
    open spec fn tokens(&self) -> Seq<Tok> {
        element_tokens(model(), self.node())
    }

    open spec fn kind_spec() -> nat {
        TABLE_JUSTIFICATION as nat
    }

    proof fn lemma_kind() {
        lemma_kind_table_justification();
    }

    fn kind() -> (k: usize) {
        proof {
            lemma_kind_table_justification();
        }
        TABLE_JUSTIFICATION
    }

    fn to_writer(&self, sink: &mut Sink) -> (r: Result<(), WriteError>) {
        let schema = schema();
        let node = self.to_node();
        encode_element(&schema, &node, sink)
    }
}

impl TableJustification {
    /// The element that the default value stands for.
    pub open spec fn initial() -> NodeView {
        NodeView {
            kind: TABLE_JUSTIFICATION as nat,
            attributes: seq![None],
            slots: Seq::empty(),
            text: Seq::empty(),
        }
    }
}

impl Default for TableJustification {
    fn default() -> (r: TableJustification)
        ensures
            r.node() == Self::initial(),
    {
        let r = TableJustification {
            value: None,
        };
        proof {
            let got = r.node();
            let want = Self::initial();
            assert(got.attributes =~= want.attributes);
            assert(got.slots =~= want.slots);
            assert(got.text =~= want.text);
        }
        r
    }
}

impl TableJustification {
    /// The default stands for an element of the model, all of which is
    /// written.
    pub proof fn lemma_initial()
        ensures
            Self::initial().conforms(model()),
            Self::initial().written_back(model()),
            Self::initial().kind == TABLE_JUSTIFICATION,
    {
        lemma_kind_table_justification();
        lemma_symbols_table_justification_val();
        let dv = Self::descriptor_spec();
        let n = Self::initial();
        assert(n.attributes_fit(model(), true));
        assert(n.slots_fit(model(), true));
        assert(n.children_fit(model()));
    }

    /// What is written of the default is read as the default.
    pub proof fn lemma_default_round_trip(rest: Seq<Tok>)
        ensures
            decode_element_spec(
                model(),
                TABLE_JUSTIFICATION as nat,
                element_tokens(model(), Self::initial()).skip(1) + rest,
            ) == Ok::<_, DecodeError>((Self::initial(), rest)),
    {
        Self::lemma_initial();
        lemma_model_well_formed();
        lemma_round_trip(model(), Self::initial(), rest);
    }
}

impl From<TableJustificationVal> for TableJustification {
    /// The alignment `val`.
    fn from(val: TableJustificationVal) -> (r: TableJustification) {
        TableJustification { value: Some(val) }
    }
}

impl vstd::std_specs::convert::FromSpecImpl<TableJustificationVal> for TableJustification {
    open spec fn obeys_from_spec() -> bool {
        true
    }

    open spec fn from_spec(val: TableJustificationVal) -> TableJustification {
        TableJustification { value: Some(val) }
    }
}

} // verus!
