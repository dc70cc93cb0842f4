//! The indent of a table.

use crate::catalog::{
    lemma_kind_table_indent, lemma_model_well_formed, lemma_symbols_table_indent_unit, model,
    schema, TABLE_INDENT, TABLE_INDENT_UNIT_SYMBOLS,
};
use crate::decode::decode_element_spec;
use crate::encode::{element_tokens, encode_element};
use crate::entity::{
    signed_of, signed_scalar, signed_value, symbol_of, symbol_scalar, symbol_value, Element,
    Entity,
};
use crate::error::{DecodeError, WriteError};
use crate::laws::lemma_round_trip;
use crate::node::{value_view, Node, NodeView, Scalar};
use crate::scalar::{find_symbol, fingerprint, is_first, lemma_symbol_round_trip, symbol_index};
use crate::schema::{
    Attribute, AttributeView, Codec, Content, Descriptor, DescriptorView, Name, NameView, Slot,
};
use crate::token::Tok;
use crate::writer::Sink;
use vstd::prelude::*;
use vstd::string::StringExecFns;

verus! {

/// The unit of a table indent.
#[derive(Clone, Copy, Debug, PartialEq, Eq, Structural)]
pub enum TableIndentUnit {
    Auto,
    Dxa,
    Nil,
    Pct,
}

impl TableIndentUnit {
    /// The texts of the values, each at the index of its value.
    pub open spec fn symbols_spec() -> Seq<Seq<char>> {
        seq!["auto"@, "dxa"@, "nil"@, "pct"@]
    }

    /// The texts of the values, each at the index of its value.
    pub fn symbols() -> (table: Vec<String>)
        ensures
            Seq::new(table@.len(), |i: int| table@[i]@) == Self::symbols_spec(),
    {
        let mut table: Vec<String> = Vec::new();
        table.push(String::from_str("auto"));
        table.push(String::from_str("dxa"));
        table.push(String::from_str("nil"));
        table.push(String::from_str("pct"));
        assert(Seq::new(table@.len(), |i: int| table@[i]@) =~= Self::symbols_spec());
        table
    }

    /// The index of the value in the table of its texts.
    pub open spec fn index_spec(self) -> usize {
        match self {
            TableIndentUnit::Auto => 0,
            TableIndentUnit::Dxa => 1,
            TableIndentUnit::Nil => 2,
            TableIndentUnit::Pct => 3,
        }
    }

    /// The index of the value in the table of its texts.
    pub fn index(&self) -> (i: usize)
        ensures
            i == self.index_spec(),
            i < 4,
    {
        match self {
            TableIndentUnit::Auto => 0,
            TableIndentUnit::Dxa => 1,
            TableIndentUnit::Nil => 2,
            TableIndentUnit::Pct => 3,
        }
    }

    /// The value at an index of the table.
    pub fn from_index(i: usize) -> (r: TableIndentUnit)
        requires
            i < 4,
        ensures
            r.index_spec() == i,
    {
        if i == 0 {
            TableIndentUnit::Auto
        } else if i == 1 {
            TableIndentUnit::Dxa
        } else if i == 2 {
            TableIndentUnit::Nil
        } else {
            TableIndentUnit::Pct
        }
    }

    /// The text of the value.
    pub fn as_str(&self) -> (s: &'static str)
        ensures
            s@ == Self::symbols_spec()[self.index_spec() as int],
    {
        match self {
            TableIndentUnit::Auto => "auto",
            TableIndentUnit::Dxa => "dxa",
            TableIndentUnit::Nil => "nil",
            TableIndentUnit::Pct => "pct",
        }
    }

    /// The value that a text denotes; `None` for a text that is not in the
    /// table.
    pub fn from_str(s: &str) -> (r: Option<TableIndentUnit>)
        ensures
            symbol_index(Self::symbols_spec(), s@) == match r {
                Some(v) => Some(v.index_spec()),
                None => None,
            },
    {
        let table = Self::symbols();
        match find_symbol(&table, s) {
            Some(i) => {
                assert(is_first(Self::symbols_spec(), s@, i as int));
                Some(Self::from_index(i))
            },
            None => None,
        }
    }

    /// No two values have the same text.
    pub proof fn lemma_symbols_distinct()
        ensures
            Self::symbols_spec().len() == 4,
            forall|a: int, b: int|
                0 <= a < b < 4 ==> #[trigger] Self::symbols_spec()[a] != #[trigger] Self::symbols_spec()[b],
    {
        reveal_strlit("auto");
        reveal_strlit("dxa");
        reveal_strlit("nil");
        reveal_strlit("pct");
        assert(fingerprint("auto"@, 0, 0) == (4int, 'a', 'o'));
        assert(fingerprint("dxa"@, 0, 0) == (3int, 'd', 'a'));
        assert(fingerprint("nil"@, 0, 0) == (3int, 'n', 'l'));
        assert(fingerprint("pct"@, 0, 0) == (3int, 'p', 't'));
        let t = Self::symbols_spec();
        assert forall|a: int, b: int| 0 <= a < b < 4 implies #[trigger] t[a] != #[trigger] t[b] by {
            assert(fingerprint(t[a], 0, 0) != fingerprint(t[b], 0, 0));
        }
    }

    /// Every value is read back from its text.
    pub proof fn lemma_text_round_trip(v: TableIndentUnit)
        ensures
            symbol_index(Self::symbols_spec(), Self::symbols_spec()[v.index_spec() as int]) == Some(
                v.index_spec(),
            ),
    {
        Self::lemma_symbols_distinct();
        lemma_symbol_round_trip(Self::symbols_spec(), v.index_spec() as int);
    }
}

/// The indent of a table.
#[derive(Debug, PartialEq)]
pub struct TableIndent {
    pub value: Option<isize>,
    pub unit: Option<TableIndentUnit>,
}

impl TableIndent {
    /// What the mapping knows of the element: its tag, its attributes and
    /// the slots of its children.
    pub open spec fn descriptor_spec() -> DescriptorView {
        DescriptorView {
            tag: NameView { prefix: "w"@, local: "tblInd"@ },
            attributes: seq![
                AttributeView {
                    name: NameView { prefix: "w"@, local: "w"@ },
                    codec: Codec::Signed,
                    required: false,
                },
                AttributeView {
                    name: NameView { prefix: "w"@, local: "type"@ },
                    codec: Codec::Symbol(TABLE_INDENT_UNIT_SYMBOLS),
                    required: false,
                },
            ],
            slots: Seq::empty(),
            content: Content::Children,
        }
    }

    /// What the mapping knows of the element.
    pub fn descriptor() -> (d: Descriptor)
        ensures
            d@ == Self::descriptor_spec(),
    {
        let mut attributes: Vec<Attribute> = Vec::new();
        attributes.push(Attribute::new("w", "w", Codec::Signed, false));
        attributes.push(Attribute::new("w", "type", Codec::Symbol(TABLE_INDENT_UNIT_SYMBOLS), false));
        let slots: Vec<Slot> = Vec::new();
        let d = Descriptor {
            tag: Name::new("w", "tblInd"),
            attributes,
            slots,
            content: Content::Children,
        };
        proof {
            let want = Self::descriptor_spec();
            assert(d@.attributes =~= want.attributes);
            assert(d@.slots =~= want.slots);
        }
        d
    }

    /// No two attributes of the element have the same name, and no two of its
    /// slots accept the same tag.
    pub proof fn lemma_descriptor_distinct()
        ensures
            Self::descriptor_spec().distinct(),
    {
        reveal_strlit("type");
        reveal_strlit("w");
        assert("w"@.len() != "type"@.len());
    }
}

impl Entity for TableIndent {
    open spec fn accepts(kind: nat) -> bool {
        kind == TABLE_INDENT
    }

    open spec fn node(&self) -> NodeView {
        NodeView {
            kind: TABLE_INDENT as nat,
            attributes: seq![
                signed_value(self.value),
                symbol_value(match self.unit {
                    Some(s) => Some(s.index_spec()),
                    None => None,
                }),
            ],
            slots: Seq::empty(),
            text: Seq::empty(),
        }
    }

    proof fn lemma_node_conforms(&self) {
        lemma_kind_table_indent();
        lemma_symbols_table_indent_unit();
        let dv = Self::descriptor_spec();
        let n = self.node();
        assert(n.attributes_fit(model(), true));
        assert(n.slots_fit(model(), true));
        assert(n.children_fit(model()));
    }

    fn to_node(&self) -> (n: Node) {
        let mut attributes: Vec<Option<Scalar>> = Vec::new();
        attributes.push(signed_scalar(self.value));
        attributes.push(
            symbol_scalar(match &self.unit {
                Some(s) => Some(s.index()),
                None => None,
            }),
        );
        let slots: Vec<Vec<Node>> = Vec::new();
        let n = Node { kind: TABLE_INDENT, attributes, slots, text: String::new() };
        proof {
            lemma_kind_table_indent();
            lemma_symbols_table_indent_unit();
            let dv = Self::descriptor_spec();
            let want = self.node();
            assert(n@.attributes =~= want.attributes);
            assert(n@.slots =~= want.slots);
            assert(n@.text =~= want.text);
            self.lemma_node_conforms();
        }
        n
    }

    fn from_node(n: &Node) -> (r: TableIndent) {
        proof {
            lemma_kind_table_indent();
            let dv = Self::descriptor_spec();
            lemma_symbols_table_indent_unit();
            assert(n@.attributes[0] == value_view(n.attributes@[0]));
            assert(n@.attributes[1] == value_view(n.attributes@[1]));
        }
        let r = TableIndent {
            value: signed_of(&n.attributes[0]),
            unit: match symbol_of(&n.attributes[1]) {
                Some(i) => Some(TableIndentUnit::from_index(i)),
                None => None,
            },
        };
        proof {
            let got = r.node();
            assert(got.attributes =~= n@.attributes);
            assert(got.slots =~= n@.slots);
            assert(got.text =~= n@.text);
        }
        r
    }
}

impl Element for TableIndent {
    open spec fn tokens(&self) -> Seq<Tok> {
        element_tokens(model(), self.node())
    }

    open spec fn kind_spec() -> nat {
        TABLE_INDENT as nat
    }

    proof fn lemma_kind() {
        lemma_kind_table_indent();
    }

    fn kind() -> (k: usize) {
        proof {
            lemma_kind_table_indent();
        }
        TABLE_INDENT
    }

    fn to_writer(&self, sink: &mut Sink) -> (r: Result<(), WriteError>) {
        let schema = schema();
        let node = self.to_node();
        encode_element(&schema, &node, sink)
    }
}

impl TableIndent {
    /// The element that the default value stands for.
    pub open spec fn initial() -> NodeView {
        NodeView {
            kind: TABLE_INDENT as nat,
            attributes: seq![None, None],
            slots: Seq::empty(),
            text: Seq::empty(),
        }
    }
}

impl Default for TableIndent {
    fn default() -> (r: TableIndent)
        ensures
            r.node() == Self::initial(),
    {
        let r = TableIndent {
            value: None,
            unit: None,
        };
        proof {
            let got = r.node();
            let want = Self::initial();
            assert(got.attributes =~= want.attributes);
            assert(got.slots =~= want.slots);
            assert(got.text =~= want.text);
        }
        r
    }
}

impl TableIndent {
    /// The default stands for an element of the model, all of which is
    /// written.
    pub proof fn lemma_initial()
        ensures
            Self::initial().conforms(model()),
            Self::initial().written_back(model()),
            Self::initial().kind == TABLE_INDENT,
    {
        lemma_kind_table_indent();
        lemma_symbols_table_indent_unit();
        let dv = Self::descriptor_spec();
        let n = Self::initial();
        assert(n.attributes_fit(model(), true));
        assert(n.slots_fit(model(), true));
        assert(n.children_fit(model()));
    }

    /// What is written of the default is read as the default.
    pub proof fn lemma_default_round_trip(rest: Seq<Tok>)
        ensures
            decode_element_spec(
                model(),
                TABLE_INDENT as nat,
                element_tokens(model(), Self::initial()).skip(1) + rest,
            ) == Ok::<_, DecodeError>((Self::initial(), rest)),
    {
        Self::lemma_initial();
        lemma_model_well_formed();
        lemma_round_trip(model(), Self::initial(), rest);
    }
}

impl From<isize> for TableIndent {
    /// The indent `val`, in no stated unit.
    fn from(val: isize) -> (r: TableIndent) {
        TableIndent { value: Some(val), unit: None }
    }
}

impl vstd::std_specs::convert::FromSpecImpl<isize> for TableIndent {
    open spec fn obeys_from_spec() -> bool {
        true
    }

    open spec fn from_spec(val: isize) -> TableIndent {
        TableIndent { value: Some(val), unit: None }
    }
}

impl From<TableIndentUnit> for TableIndent {
    /// An indent of no stated size in the unit `val`.
    fn from(val: TableIndentUnit) -> (r: TableIndent) {
        TableIndent { value: None, unit: Some(val) }
    }
}

impl vstd::std_specs::convert::FromSpecImpl<TableIndentUnit> for TableIndent {
    open spec fn obeys_from_spec() -> bool {
        true
    }

    open spec fn from_spec(val: TableIndentUnit) -> TableIndent {
        TableIndent { value: None, unit: Some(val) }
    }
}

impl From<(isize, TableIndentUnit)> for TableIndent {
    /// The indent `val.0` in the unit `val.1`.
    fn from(val: (isize, TableIndentUnit)) -> (r: TableIndent) {
        TableIndent { value: Some(val.0), unit: Some(val.1) }
    }
}

impl vstd::std_specs::convert::FromSpecImpl<(isize, TableIndentUnit)> for TableIndent {
    open spec fn obeys_from_spec() -> bool {
        true
    }

    open spec fn from_spec(val: (isize, TableIndentUnit)) -> TableIndent {
        TableIndent { value: Some(val.0), unit: Some(val.1) }
    }
}

} // verus!
