//! One level of a numbering definition.

use crate::catalog::{
    lemma_kind_level, lemma_kind_level_text, lemma_kind_numbering_format, lemma_kind_start,
    lemma_model_well_formed, lemma_symbols_numbering_format_val, model, schema, LEVEL, LEVEL_TEXT,
    NUMBERING_FORMAT, NUMBERING_FORMAT_VAL_SYMBOLS, START,
};
use crate::decode::decode_element_spec;
use crate::encode::{element_tokens, encode_element};
use crate::entity::{
    node_of_one, node_of_optional, optional_node, optional_of, symbol_of, text_of, unsigned_of,
    Element, Entity,
};
use crate::error::{DecodeError, WriteError};
use crate::laws::lemma_round_trip;
use crate::node::{value_view, Node, NodeView, Scalar, ScalarView};
use crate::scalar::{find_symbol, fingerprint, is_first, lemma_symbol_round_trip, symbol_index};
use crate::schema::{
    AlternativeView, Attribute, AttributeView, Cardinality, Codec, Content, Descriptor,
    DescriptorView, Name, NameView, Slot, SlotView,
};
use crate::token::Tok;
use crate::writer::Sink;
use vstd::prelude::*;
use vstd::string::StringExecFns;

verus! {

/// The text of a numbering level.
#[derive(Debug, PartialEq)]
pub struct LevelText {
    pub value: String,
}

impl LevelText {
    /// What the mapping knows of the element: its tag, its attributes and
    /// the slots of its children.
    pub open spec fn descriptor_spec() -> DescriptorView {
        DescriptorView {
            tag: NameView { prefix: "w"@, local: "lvlText"@ },
            attributes: seq![
                AttributeView {
                    name: NameView { prefix: "w"@, local: "val"@ },
                    codec: Codec::Text,
                    required: true,
                },
            ],
            slots: Seq::empty(),
            content: Content::Children,
        }
    }

    /// What the mapping knows of the element.
    pub fn descriptor() -> (d: Descriptor)
        ensures
            d@ == Self::descriptor_spec(),
    {
        let mut attributes: Vec<Attribute> = Vec::new();
        attributes.push(Attribute::new("w", "val", Codec::Text, true));
        let slots: Vec<Slot> = Vec::new();
        let d = Descriptor {
            tag: Name::new("w", "lvlText"),
            attributes,
            slots,
            content: Content::Children,
        };
        proof {
            let want = Self::descriptor_spec();
            assert(d@.attributes =~= want.attributes);
            assert(d@.slots =~= want.slots);
        }
        d
    }

    /// No two attributes of the element have the same name, and no two of its
    /// slots accept the same tag.
    pub proof fn lemma_descriptor_distinct()
        ensures
            Self::descriptor_spec().distinct(),
    {
    }
}

impl Entity for LevelText {
    open spec fn accepts(kind: nat) -> bool {
        kind == LEVEL_TEXT
    }

    open spec fn node(&self) -> NodeView {
        NodeView {
            kind: LEVEL_TEXT as nat,
            attributes: seq![
                Some(ScalarView::Text(self.value@)),
            ],
            slots: Seq::empty(),
            text: Seq::empty(),
        }
    }

    proof fn lemma_node_conforms(&self) {
        lemma_kind_level_text();
        let dv = Self::descriptor_spec();
        let n = self.node();
        assert(n.attributes_fit(model(), true));
        assert(n.slots_fit(model(), true));
        assert(n.children_fit(model()));
    }

    fn to_node(&self) -> (n: Node) {
        let mut attributes: Vec<Option<Scalar>> = Vec::new();
        attributes.push(Some(Scalar::Text(self.value.clone())));
        let slots: Vec<Vec<Node>> = Vec::new();
        let n = Node { kind: LEVEL_TEXT, attributes, slots, text: String::new() };
        proof {
            lemma_kind_level_text();
            let dv = Self::descriptor_spec();
            let want = self.node();
            assert(n@.attributes =~= want.attributes);
            assert(n@.slots =~= want.slots);
            assert(n@.text =~= want.text);
            self.lemma_node_conforms();
        }
        n
    }

    fn from_node(n: &Node) -> (r: LevelText) {
        proof {
            lemma_kind_level_text();
            let dv = Self::descriptor_spec();
            assert(n@.attributes[0] == value_view(n.attributes@[0]));
        }
        let r = LevelText {
            value: match text_of(&n.attributes[0]) {
                Some(v) => v,
                None => String::new(),
            },
        };
        proof {
            let got = r.node();
            assert(got.attributes =~= n@.attributes);
            assert(got.slots =~= n@.slots);
            assert(got.text =~= n@.text);
        }
        r
    }
}

impl Element for LevelText {
    open spec fn tokens(&self) -> Seq<Tok> {
        element_tokens(model(), self.node())
    }

    open spec fn kind_spec() -> nat {
        LEVEL_TEXT as nat
    }

    proof fn lemma_kind() {
        lemma_kind_level_text();
    }

    fn kind() -> (k: usize) {
        proof {
            lemma_kind_level_text();
        }
        LEVEL_TEXT
    }

    fn to_writer(&self, sink: &mut Sink) -> (r: Result<(), WriteError>) {
        let schema = schema();
        let node = self.to_node();
        encode_element(&schema, &node, sink)
    }
}

impl LevelText {
    /// The element that the default value stands for.
    pub open spec fn initial() -> NodeView {
        NodeView {
            kind: LEVEL_TEXT as nat,
            attributes: seq![Some(ScalarView::Text(Seq::empty()))],
            slots: Seq::empty(),
            text: Seq::empty(),
        }
    }
}

impl Default for LevelText {
    fn default() -> (r: LevelText)
        ensures
            r.node() == Self::initial(),
    {
        let r = LevelText {
            value: String::new(),
        };
        proof {
            let got = r.node();
            let want = Self::initial();
            assert(got.attributes =~= want.attributes);
            assert(got.slots =~= want.slots);
            assert(got.text =~= want.text);
        }
        r
    }
}

impl LevelText {
    /// The default stands for an element of the model, all of which is
    /// written.
    pub proof fn lemma_initial()
        ensures
            Self::initial().conforms(model()),
            Self::initial().written_back(model()),
            Self::initial().kind == LEVEL_TEXT,
    {
        lemma_kind_level_text();
        let dv = Self::descriptor_spec();
        let n = Self::initial();
        assert(n.attributes_fit(model(), true));
        assert(n.slots_fit(model(), true));
        assert(n.children_fit(model()));
    }

    /// What is written of the default is read as the default.
    pub proof fn lemma_default_round_trip(rest: Seq<Tok>)
        ensures
            decode_element_spec(
                model(),
                LEVEL_TEXT as nat,
                element_tokens(model(), Self::initial()).skip(1) + rest,
            ) == Ok::<_, DecodeError>((Self::initial(), rest)),
    {
        Self::lemma_initial();
        lemma_model_well_formed();
        lemma_round_trip(model(), Self::initial(), rest);
    }
}

/// How the number of a level is written.
#[derive(Clone, Copy, Debug, PartialEq, Eq, Structural)]
pub enum NumberingFormatVal {
    ArabicAlpha,
    Bullet,
    Decimal,
    DecimalZero,
    LowerLetter,
    LowerRoman,
    Ordinal,
    UpperLetter,
    UpperRoman,
    NoNumber,
}

impl NumberingFormatVal {
    /// The texts of the values, each at the index of its value.
    pub open spec fn symbols_spec() -> Seq<Seq<char>> {
        seq!["arabicAlpha"@, "bullet"@, "decimal"@, "decimalZero"@, "lowerLetter"@, "lowerRoman"@, "ordinal"@, "upperLetter"@, "upperRoman"@, "none"@]
    }

    /// The texts of the values, each at the index of its value.
    pub fn symbols() -> (table: Vec<String>)
        ensures
            Seq::new(table@.len(), |i: int| table@[i]@) == Self::symbols_spec(),
    {
        let mut table: Vec<String> = Vec::new();
        table.push(String::from_str("arabicAlpha"));
        table.push(String::from_str("bullet"));
        table.push(String::from_str("decimal"));
        table.push(String::from_str("decimalZero"));
        table.push(String::from_str("lowerLetter"));
        table.push(String::from_str("lowerRoman"));
        table.push(String::from_str("ordinal"));
        table.push(String::from_str("upperLetter"));
        table.push(String::from_str("upperRoman"));
        table.push(String::from_str("none"));
        assert(Seq::new(table@.len(), |i: int| table@[i]@) =~= Self::symbols_spec());
        table
    }

    /// The index of the value in the table of its texts.
    pub open spec fn index_spec(self) -> usize {
        match self {
            NumberingFormatVal::ArabicAlpha => 0,
            NumberingFormatVal::Bullet => 1,
            NumberingFormatVal::Decimal => 2,
            NumberingFormatVal::DecimalZero => 3,
            NumberingFormatVal::LowerLetter => 4,
            NumberingFormatVal::LowerRoman => 5,
            NumberingFormatVal::Ordinal => 6,
            NumberingFormatVal::UpperLetter => 7,
            NumberingFormatVal::UpperRoman => 8,
            NumberingFormatVal::NoNumber => 9,
        }
    }

    /// The index of the value in the table of its texts.
    pub fn index(&self) -> (i: usize)
        ensures
            i == self.index_spec(),
            i < 10,
    {
        match self {
            NumberingFormatVal::ArabicAlpha => 0,
            NumberingFormatVal::Bullet => 1,
            NumberingFormatVal::Decimal => 2,
            NumberingFormatVal::DecimalZero => 3,
            NumberingFormatVal::LowerLetter => 4,
            NumberingFormatVal::LowerRoman => 5,
            NumberingFormatVal::Ordinal => 6,
            NumberingFormatVal::UpperLetter => 7,
            NumberingFormatVal::UpperRoman => 8,
            NumberingFormatVal::NoNumber => 9,
        }
    }

    /// The value at an index of the table.
    pub fn from_index(i: usize) -> (r: NumberingFormatVal)
        requires
            i < 10,
        ensures
            r.index_spec() == i,
    {
        if i == 0 {
            NumberingFormatVal::ArabicAlpha
        } else if i == 1 {
            NumberingFormatVal::Bullet
        } else if i == 2 {
            NumberingFormatVal::Decimal
        } else if i == 3 {
            NumberingFormatVal::DecimalZero
        } else if i == 4 {
            NumberingFormatVal::LowerLetter
        } else if i == 5 {
            NumberingFormatVal::LowerRoman
        } else if i == 6 {
            NumberingFormatVal::Ordinal
        } else if i == 7 {
            NumberingFormatVal::UpperLetter
        } else if i == 8 {
            NumberingFormatVal::UpperRoman
        } else {
            NumberingFormatVal::NoNumber
        }
    }

    /// The text of the value.
    pub fn as_str(&self) -> (s: &'static str)
        ensures
            s@ == Self::symbols_spec()[self.index_spec() as int],
    {
        match self {
            NumberingFormatVal::ArabicAlpha => "arabicAlpha",
            NumberingFormatVal::Bullet => "bullet",
            NumberingFormatVal::Decimal => "decimal",
            NumberingFormatVal::DecimalZero => "decimalZero",
            NumberingFormatVal::LowerLetter => "lowerLetter",
            NumberingFormatVal::LowerRoman => "lowerRoman",
            NumberingFormatVal::Ordinal => "ordinal",
            NumberingFormatVal::UpperLetter => "upperLetter",
            NumberingFormatVal::UpperRoman => "upperRoman",
            NumberingFormatVal::NoNumber => "none",
        }
    }

    /// The value that a text denotes; `None` for a text that is not in the
    /// table.
    pub fn from_str(s: &str) -> (r: Option<NumberingFormatVal>)
        ensures
            symbol_index(Self::symbols_spec(), s@) == match r {
                Some(v) => Some(v.index_spec()),
                None => None,
            },
    {
        let table = Self::symbols();
        match find_symbol(&table, s) {
            Some(i) => {
                assert(is_first(Self::symbols_spec(), s@, i as int));
                Some(Self::from_index(i))
            },
            None => None,
        }
    }

    /// No two values have the same text.
    pub proof fn lemma_symbols_distinct()
        ensures
            Self::symbols_spec().len() == 10,
            forall|a: int, b: int|
                0 <= a < b < 10 ==> #[trigger] Self::symbols_spec()[a] != #[trigger] Self::symbols_spec()[b],
    {
        reveal_strlit("arabicAlpha");
        reveal_strlit("bullet");
        reveal_strlit("decimal");
        reveal_strlit("decimalZero");
        reveal_strlit("lowerLetter");
        reveal_strlit("lowerRoman");
        reveal_strlit("ordinal");
        reveal_strlit("upperLetter");
        reveal_strlit("upperRoman");
        reveal_strlit("none");
        assert(fingerprint("arabicAlpha"@, 0, 0) == (11int, 'a', 'a'));
        assert(fingerprint("bullet"@, 0, 0) == (6int, 'b', 't'));
        assert(fingerprint("decimal"@, 0, 0) == (7int, 'd', 'l'));
        assert(fingerprint("decimalZero"@, 0, 0) == (11int, 'd', 'o'));
        assert(fingerprint("lowerLetter"@, 0, 0) == (11int, 'l', 'r'));
        assert(fingerprint("lowerRoman"@, 0, 0) == (10int, 'l', 'n'));
        assert(fingerprint("ordinal"@, 0, 0) == (7int, 'o', 'l'));
        assert(fingerprint("upperLetter"@, 0, 0) == (11int, 'u', 'r'));
        assert(fingerprint("upperRoman"@, 0, 0) == (10int, 'u', 'n'));
        assert(fingerprint("none"@, 0, 0) == (4int, 'n', 'e'));
        let t = Self::symbols_spec();
        assert forall|a: int, b: int| 0 <= a < b < 10 implies #[trigger] t[a] != #[trigger] t[b] by {
            assert(fingerprint(t[a], 0, 0) != fingerprint(t[b], 0, 0));
        }
    }

    /// Every value is read back from its text.
    pub proof fn lemma_text_round_trip(v: NumberingFormatVal)
        ensures
            symbol_index(Self::symbols_spec(), Self::symbols_spec()[v.index_spec() as int]) == Some(
                v.index_spec(),
            ),
    {
        Self::lemma_symbols_distinct();
        lemma_symbol_round_trip(Self::symbols_spec(), v.index_spec() as int);
    }
}

impl Default for NumberingFormatVal {
    fn default() -> (r: NumberingFormatVal)
        ensures
            r == NumberingFormatVal::Decimal,
    {
        NumberingFormatVal::Decimal
    }
}

/// The format of a numbering level.
#[derive(Debug, PartialEq)]
pub struct NumberingFormat {
    pub value: NumberingFormatVal,
}

impl NumberingFormat {
    /// What the mapping knows of the element: its tag, its attributes and
    /// the slots of its children.
    pub open spec fn descriptor_spec() -> DescriptorView {
        DescriptorView {
            tag: NameView { prefix: "w"@, local: "numFmt"@ },
            attributes: seq![
                AttributeView {
                    name: NameView { prefix: "w"@, local: "val"@ },
                    codec: Codec::Symbol(NUMBERING_FORMAT_VAL_SYMBOLS),
                    required: true,
                },
            ],
            slots: Seq::empty(),
            content: Content::Children,
        }
    }

    /// What the mapping knows of the element.
    pub fn descriptor() -> (d: Descriptor)
        ensures
            d@ == Self::descriptor_spec(),
    {
        let mut attributes: Vec<Attribute> = Vec::new();
        attributes.push(Attribute::new("w", "val", Codec::Symbol(NUMBERING_FORMAT_VAL_SYMBOLS), true));
        let slots: Vec<Slot> = Vec::new();
        let d = Descriptor {
            tag: Name::new("w", "numFmt"),
            attributes,
            slots,
            content: Content::Children,
        };
        proof {
            let want = Self::descriptor_spec();
            assert(d@.attributes =~= want.attributes);
            assert(d@.slots =~= want.slots);
        }
        d
    }

    /// No two attributes of the element have the same name, and no two of its
    /// slots accept the same tag.
    pub proof fn lemma_descriptor_distinct()
        ensures
            Self::descriptor_spec().distinct(),
    {
    }
}

impl Entity for NumberingFormat {
    open spec fn accepts(kind: nat) -> bool {
        kind == NUMBERING_FORMAT
    }

    open spec fn node(&self) -> NodeView {
        NodeView {
            kind: NUMBERING_FORMAT as nat,
            attributes: seq![
                Some(ScalarView::Symbol(self.value.index_spec())),
            ],
            slots: Seq::empty(),
            text: Seq::empty(),
        }
    }

    proof fn lemma_node_conforms(&self) {
        lemma_kind_numbering_format();
        lemma_symbols_numbering_format_val();
        let dv = Self::descriptor_spec();
        let n = self.node();
        assert(n.attributes_fit(model(), true));
        assert(n.slots_fit(model(), true));
        assert(n.children_fit(model()));
    }

    fn to_node(&self) -> (n: Node) {
        let mut attributes: Vec<Option<Scalar>> = Vec::new();
        attributes.push(Some(Scalar::Symbol(self.value.index())));
        let slots: Vec<Vec<Node>> = Vec::new();
        let n = Node { kind: NUMBERING_FORMAT, attributes, slots, text: String::new() };
        proof {
            lemma_kind_numbering_format();
            lemma_symbols_numbering_format_val();
            let dv = Self::descriptor_spec();
            let want = self.node();
            assert(n@.attributes =~= want.attributes);
            assert(n@.slots =~= want.slots);
            assert(n@.text =~= want.text);
            self.lemma_node_conforms();
        }
        n
    }

    fn from_node(n: &Node) -> (r: NumberingFormat) {
        proof {
            lemma_kind_numbering_format();
            let dv = Self::descriptor_spec();
            lemma_symbols_numbering_format_val();
            assert(n@.attributes[0] == value_view(n.attributes@[0]));
        }
        let r = NumberingFormat {
            value: match symbol_of(&n.attributes[0]) {
                Some(i) => NumberingFormatVal::from_index(i),
                None => NumberingFormatVal::from_index(0),
            },
        };
        proof {
            let got = r.node();
            assert(got.attributes =~= n@.attributes);
            assert(got.slots =~= n@.slots);
            assert(got.text =~= n@.text);
        }
        r
    }
}

impl Element for NumberingFormat {
    open spec fn tokens(&self) -> Seq<Tok> {
        element_tokens(model(), self.node())
    }

    open spec fn kind_spec() -> nat {
        NUMBERING_FORMAT as nat
    }

    proof fn lemma_kind() {
        lemma_kind_numbering_format();
    }

    fn kind() -> (k: usize) {
        proof {
            lemma_kind_numbering_format();
        }
        NUMBERING_FORMAT
    }

    fn to_writer(&self, sink: &mut Sink) -> (r: Result<(), WriteError>) {
        let schema = schema();
        let node = self.to_node();
        encode_element(&schema, &node, sink)
    }
}

impl NumberingFormat {
    /// The element that the default value stands for.
    pub open spec fn initial() -> NodeView {
        NodeView {
            kind: NUMBERING_FORMAT as nat,
            attributes: seq![Some(ScalarView::Symbol(2))],
            slots: Seq::empty(),
            text: Seq::empty(),
        }
    }
}

impl Default for NumberingFormat {
    fn default() -> (r: NumberingFormat)
        ensures
            r.node() == Self::initial(),
    {
        let r = NumberingFormat {
            value: NumberingFormatVal::Decimal,
        };
        proof {
            let got = r.node();
            let want = Self::initial();
            assert(got.attributes =~= want.attributes);
            assert(got.slots =~= want.slots);
            assert(got.text =~= want.text);
        }
        r
    }
}

impl NumberingFormat {
    /// The default stands for an element of the model, all of which is
    /// written.
    pub proof fn lemma_initial()
        ensures
            Self::initial().conforms(model()),
            Self::initial().written_back(model()),
            Self::initial().kind == NUMBERING_FORMAT,
    {
        lemma_kind_numbering_format();
        lemma_symbols_numbering_format_val();
        let dv = Self::descriptor_spec();
        let n = Self::initial();
        assert(n.attributes_fit(model(), true));
        assert(n.slots_fit(model(), true));
        assert(n.children_fit(model()));
    }

    /// What is written of the default is read as the default.
    pub proof fn lemma_default_round_trip(rest: Seq<Tok>)
        ensures
            decode_element_spec(
                model(),
                NUMBERING_FORMAT as nat,
                element_tokens(model(), Self::initial()).skip(1) + rest,
            ) == Ok::<_, DecodeError>((Self::initial(), rest)),
    {
        Self::lemma_initial();
        lemma_model_well_formed();
        lemma_round_trip(model(), Self::initial(), rest);
    }
}

/// The number that a numbering level starts with.
#[derive(Debug, PartialEq)]
pub struct Start {
    pub value: usize,
}

impl Start {
    /// What the mapping knows of the element: its tag, its attributes and
    /// the slots of its children.
    pub open spec fn descriptor_spec() -> DescriptorView {
        DescriptorView {
            tag: NameView { prefix: "w"@, local: "start"@ },
            attributes: seq![
                AttributeView {
                    name: NameView { prefix: "w"@, local: "val"@ },
                    codec: Codec::Unsigned,
                    required: true,
                },
            ],
            slots: Seq::empty(),
            content: Content::Children,
        }
    }

    /// What the mapping knows of the element.
    pub fn descriptor() -> (d: Descriptor)
        ensures
            d@ == Self::descriptor_spec(),
    {
        let mut attributes: Vec<Attribute> = Vec::new();
        attributes.push(Attribute::new("w", "val", Codec::Unsigned, true));
        let slots: Vec<Slot> = Vec::new();
        let d = Descriptor {
            tag: Name::new("w", "start"),
            attributes,
            slots,
            content: Content::Children,
        };
        proof {
            let want = Self::descriptor_spec();
            assert(d@.attributes =~= want.attributes);
            assert(d@.slots =~= want.slots);
        }
        d
    }

    /// No two attributes of the element have the same name, and no two of its
    /// slots accept the same tag.
    pub proof fn lemma_descriptor_distinct()
        ensures
            Self::descriptor_spec().distinct(),
    {
    }
}

impl Entity for Start {
    open spec fn accepts(kind: nat) -> bool {
        kind == START
    }

    open spec fn node(&self) -> NodeView {
        NodeView {
            kind: START as nat,
            attributes: seq![
                Some(ScalarView::Unsigned(self.value)),
            ],
            slots: Seq::empty(),
            text: Seq::empty(),
        }
    }

    proof fn lemma_node_conforms(&self) {
        lemma_kind_start();
        let dv = Self::descriptor_spec();
        let n = self.node();
        assert(n.attributes_fit(model(), true));
        assert(n.slots_fit(model(), true));
        assert(n.children_fit(model()));
    }

    fn to_node(&self) -> (n: Node) {
        let mut attributes: Vec<Option<Scalar>> = Vec::new();
        attributes.push(Some(Scalar::Unsigned(self.value)));
        let slots: Vec<Vec<Node>> = Vec::new();
        let n = Node { kind: START, attributes, slots, text: String::new() };
        proof {
            lemma_kind_start();
            let dv = Self::descriptor_spec();
            let want = self.node();
            assert(n@.attributes =~= want.attributes);
            assert(n@.slots =~= want.slots);
            assert(n@.text =~= want.text);
            self.lemma_node_conforms();
        }
        n
    }

    fn from_node(n: &Node) -> (r: Start) {
        proof {
            lemma_kind_start();
            let dv = Self::descriptor_spec();
            assert(n@.attributes[0] == value_view(n.attributes@[0]));
        }
        let r = Start {
            value: match unsigned_of(&n.attributes[0]) {
                Some(v) => v,
                None => 0,
            },
        };
        proof {
            let got = r.node();
            assert(got.attributes =~= n@.attributes);
            assert(got.slots =~= n@.slots);
            assert(got.text =~= n@.text);
        }
        r
    }
}

impl Element for Start {
    open spec fn tokens(&self) -> Seq<Tok> {
        element_tokens(model(), self.node())
    }

    open spec fn kind_spec() -> nat {
        START as nat
    }

    proof fn lemma_kind() {
        lemma_kind_start();
    }

    fn kind() -> (k: usize) {
        proof {
            lemma_kind_start();
        }
        START
    }

    fn to_writer(&self, sink: &mut Sink) -> (r: Result<(), WriteError>) {
        let schema = schema();
        let node = self.to_node();
        encode_element(&schema, &node, sink)
    }
}

impl Start {
    /// The element that the default value stands for.
    pub open spec fn initial() -> NodeView {
        NodeView {
            kind: START as nat,
            attributes: seq![Some(ScalarView::Unsigned(0))],
            slots: Seq::empty(),
            text: Seq::empty(),
        }
    }
}

impl Default for Start {
    fn default() -> (r: Start)
        ensures
            r.node() == Self::initial(),
    {
        let r = Start {
            value: 0,
        };
        proof {
            let got = r.node();
            let want = Self::initial();
            assert(got.attributes =~= want.attributes);
            assert(got.slots =~= want.slots);
            assert(got.text =~= want.text);
        }
        r
    }
}

impl Start {
    /// The default stands for an element of the model, all of which is
    /// written.
    pub proof fn lemma_initial()
        ensures
            Self::initial().conforms(model()),
            Self::initial().written_back(model()),
            Self::initial().kind == START,
    {
        lemma_kind_start();
        let dv = Self::descriptor_spec();
        let n = Self::initial();
        assert(n.attributes_fit(model(), true));
        assert(n.slots_fit(model(), true));
        assert(n.children_fit(model()));
    }

    /// What is written of the default is read as the default.
    pub proof fn lemma_default_round_trip(rest: Seq<Tok>)
        ensures
            decode_element_spec(
                model(),
                START as nat,
                element_tokens(model(), Self::initial()).skip(1) + rest,
            ) == Ok::<_, DecodeError>((Self::initial(), rest)),
    {
        Self::lemma_initial();
        lemma_model_well_formed();
        lemma_round_trip(model(), Self::initial(), rest);
    }
}

/// One level of a numbering definition.
#[derive(Debug, PartialEq)]
pub struct Level {
    pub index: usize,
    pub level_text: LevelText,
    pub numbering_format: Option<NumberingFormat>,
    pub start: Option<Start>,
}

impl Level {
    /// What the mapping knows of the element: its tag, its attributes and
    /// the slots of its children.
    pub open spec fn descriptor_spec() -> DescriptorView {
        DescriptorView {
            tag: NameView { prefix: "w"@, local: "lvl"@ },
            attributes: seq![
                AttributeView {
                    name: NameView { prefix: "w"@, local: "ilvl"@ },
                    codec: Codec::Unsigned,
                    required: true,
                },
            ],
            slots: seq![
                SlotView {
                    cardinality: Cardinality::Required,
                    alternatives: seq![
                        AlternativeView {
                            tag: NameView { prefix: "w"@, local: "lvlText"@ },
                            kind: LEVEL_TEXT as nat,
                        },
                    ],
                },
                SlotView {
                    cardinality: Cardinality::Optional,
                    alternatives: seq![
                        AlternativeView {
                            tag: NameView { prefix: "w"@, local: "numFmt"@ },
                            kind: NUMBERING_FORMAT as nat,
                        },
                    ],
                },
                SlotView {
                    cardinality: Cardinality::Optional,
                    alternatives: seq![
                        AlternativeView {
                            tag: NameView { prefix: "w"@, local: "start"@ },
                            kind: START as nat,
                        },
                    ],
                },
            ],
            content: Content::Children,
        }
    }

    /// What the mapping knows of the element.
    pub fn descriptor() -> (d: Descriptor)
        ensures
            d@ == Self::descriptor_spec(),
    {
        let mut attributes: Vec<Attribute> = Vec::new();
        attributes.push(Attribute::new("w", "ilvl", Codec::Unsigned, true));
        let mut slots: Vec<Slot> = Vec::new();
        slots.push(Slot::one(Cardinality::Required, "w", "lvlText", LEVEL_TEXT));
        slots.push(Slot::one(Cardinality::Optional, "w", "numFmt", NUMBERING_FORMAT));
        slots.push(Slot::one(Cardinality::Optional, "w", "start", START));
        let d = Descriptor {
            tag: Name::new("w", "lvl"),
            attributes,
            slots,
            content: Content::Children,
        };
        proof {
            let want = Self::descriptor_spec();
            assert(d@.attributes =~= want.attributes);
            assert(d@.slots[0].alternatives =~= want.slots[0].alternatives);
            assert(d@.slots[1].alternatives =~= want.slots[1].alternatives);
            assert(d@.slots[2].alternatives =~= want.slots[2].alternatives);
            assert(d@.slots =~= want.slots);
        }
        d
    }

    /// No two attributes of the element have the same name, and no two of its
    /// slots accept the same tag.
    pub proof fn lemma_descriptor_distinct()
        ensures
            Self::descriptor_spec().distinct(),
    {
        reveal_strlit("ilvl");
        reveal_strlit("lvlText");
        reveal_strlit("numFmt");
        reveal_strlit("start");
        reveal_strlit("w");
        assert("lvlText"@.len() != "numFmt"@.len());
        assert("lvlText"@.len() != "start"@.len());
        assert("numFmt"@.len() != "start"@.len());
    }
}

impl Entity for Level {
    open spec fn accepts(kind: nat) -> bool {
        kind == LEVEL
    }

    open spec fn node(&self) -> NodeView {
        NodeView {
            kind: LEVEL as nat,
            attributes: seq![
                Some(ScalarView::Unsigned(self.index)),
            ],
            slots: seq![seq![self.level_text.node()], optional_node(self.numbering_format), optional_node(self.start)],
            text: Seq::empty(),
        }
    }

    proof fn lemma_node_conforms(&self) {
        lemma_kind_level();
        let dv = Self::descriptor_spec();
        let n = self.node();
        self.level_text.lemma_node_conforms();
        match self.numbering_format {
            Some(child) => {
                child.lemma_node_conforms();
            },
            None => {},
        }
        match self.start {
            Some(child) => {
                child.lemma_node_conforms();
            },
            None => {},
        }
        assert(n.attributes_fit(model(), true));
        assert(n.slots_fit(model(), true));
        assert forall|i: int, j: int|
            0 <= i < n.slots.len() && 0 <= j < n.slots[i].len() implies dv.slots[i].accepts(
            (#[trigger] n.slots[i][j]).kind,
        ) by {
            if i == 0 {
                assert(LevelText::accepts(n.slots[i][j].kind));
                assert(dv.slots[0].alternatives[0].kind == n.slots[i][j].kind);
            } else if i == 1 {
                assert(NumberingFormat::accepts(n.slots[i][j].kind));
                assert(dv.slots[1].alternatives[0].kind == n.slots[i][j].kind);
            } else if i == 2 {
                assert(Start::accepts(n.slots[i][j].kind));
                assert(dv.slots[2].alternatives[0].kind == n.slots[i][j].kind);
            }
        }
        assert forall|i: int, j: int|
            0 <= i < n.slots.len() && 0 <= j < n.slots[i].len() implies (#[trigger] n.slots[i][j]).conforms(
            model(),
        ) by {
            if i == 0 {
                assert(n.slots[i][j].conforms(model()));
            } else if i == 1 {
                assert(n.slots[i][j].conforms(model()));
            } else if i == 2 {
                assert(n.slots[i][j].conforms(model()));
            }
        }
        assert(n.children_fit(model()));
    }

    fn to_node(&self) -> (n: Node) {
        let mut attributes: Vec<Option<Scalar>> = Vec::new();
        attributes.push(Some(Scalar::Unsigned(self.index)));
        let mut slots: Vec<Vec<Node>> = Vec::new();
        slots.push(node_of_one(&self.level_text));
        slots.push(node_of_optional(&self.numbering_format));
        slots.push(node_of_optional(&self.start));
        let n = Node { kind: LEVEL, attributes, slots, text: String::new() };
        proof {
            lemma_kind_level();
            let dv = Self::descriptor_spec();
            let want = self.node();
            assert(n@.attributes =~= want.attributes);
            assert(n@.slots[0] =~= want.slots[0]);
            assert(n@.slots[1] =~= want.slots[1]);
            assert(n@.slots[2] =~= want.slots[2]);
            assert(n@.slots =~= want.slots);
            assert(n@.text =~= want.text);
            self.lemma_node_conforms();
        }
        n
    }

    fn from_node(n: &Node) -> (r: Level) {
        proof {
            lemma_kind_level();
            let dv = Self::descriptor_spec();
            assert(n@.attributes[0] == value_view(n.attributes@[0]));
            assert(n@.slots[0].len() == n.slots@[0]@.len());
            assert(n@.slots[1].len() == n.slots@[1]@.len());
            assert(n@.slots[2].len() == n.slots@[2]@.len());
            assert forall|j: int| 0 <= j < n.slots[0]@.len() implies (#[trigger] n.slots[0]@[j])@.conforms(
                model(),
            ) && LevelText::accepts(n.slots[0]@[j]@.kind) by {
                assert(n@.slots[0][j] == n.slots[0]@[j]@);
                assert(dv.slots[0].accepts(n@.slots[0][j].kind));
            }
            assert forall|j: int| 0 <= j < n.slots[1]@.len() implies (#[trigger] n.slots[1]@[j])@.conforms(
                model(),
            ) && NumberingFormat::accepts(n.slots[1]@[j]@.kind) by {
                assert(n@.slots[1][j] == n.slots[1]@[j]@);
                assert(dv.slots[1].accepts(n@.slots[1][j].kind));
            }
            assert forall|j: int| 0 <= j < n.slots[2]@.len() implies (#[trigger] n.slots[2]@[j])@.conforms(
                model(),
            ) && Start::accepts(n.slots[2]@[j]@.kind) by {
                assert(n@.slots[2][j] == n.slots[2]@[j]@);
                assert(dv.slots[2].accepts(n@.slots[2][j].kind));
            }
        }
        let r = Level {
            index: match unsigned_of(&n.attributes[0]) {
                Some(v) => v,
                None => 0,
            },
            level_text: LevelText::from_node(&n.slots[0][0]),
            numbering_format: optional_of(&n.slots[1]),
            start: optional_of(&n.slots[2]),
        };
        proof {
            let got = r.node();
            assert(got.attributes =~= n@.attributes);
            assert(got.slots[0] =~= n@.slots[0]);
            assert(got.slots[1] =~= n@.slots[1]);
            assert(got.slots[2] =~= n@.slots[2]);
            assert(got.slots =~= n@.slots);
            assert(got.text =~= n@.text);
        }
        r
    }
}

impl Element for Level {
    open spec fn tokens(&self) -> Seq<Tok> {
        element_tokens(model(), self.node())
    }

    open spec fn kind_spec() -> nat {
        LEVEL as nat
    }

    proof fn lemma_kind() {
        lemma_kind_level();
    }

    fn kind() -> (k: usize) {
        proof {
            lemma_kind_level();
        }
        LEVEL
    }

    fn to_writer(&self, sink: &mut Sink) -> (r: Result<(), WriteError>) {
        let schema = schema();
        let node = self.to_node();
        encode_element(&schema, &node, sink)
    }
}

impl Level {
    /// The element that the default value stands for.
    pub open spec fn initial() -> NodeView {
        NodeView {
            kind: LEVEL as nat,
            attributes: seq![Some(ScalarView::Unsigned(0))],
            slots: seq![seq![LevelText::initial()], Seq::empty(), Seq::empty()],
            text: Seq::empty(),
        }
    }
}

impl Default for Level {
    fn default() -> (r: Level)
        ensures
            r.node() == Self::initial(),
    {
        let r = Level {
            index: 0,
            level_text: LevelText::default(),
            numbering_format: None,
            start: None,
        };
        proof {
            let got = r.node();
            let want = Self::initial();
            assert(got.attributes =~= want.attributes);
            assert(got.slots[0] =~= want.slots[0]);
            assert(got.slots[1] =~= want.slots[1]);
            assert(got.slots[2] =~= want.slots[2]);
            assert(got.slots =~= want.slots);
            assert(got.text =~= want.text);
        }
        r
    }
}

impl Level {
    /// The default stands for an element of the model, all of which is
    /// written.
    pub proof fn lemma_initial()
        ensures
            Self::initial().conforms(model()),
            Self::initial().written_back(model()),
            Self::initial().kind == LEVEL,
    {
        lemma_kind_level();
        let dv = Self::descriptor_spec();
        let n = Self::initial();
        LevelText::lemma_initial();
        assert(n.attributes_fit(model(), true));
        assert(n.slots_fit(model(), true));
        assert forall|i: int, j: int|
            0 <= i < n.slots.len() && 0 <= j < n.slots[i].len() implies dv.slots[i].accepts(
            (#[trigger] n.slots[i][j]).kind,
        ) by {
            if i == 0 {
                assert(dv.slots[0].alternatives[0].kind == n.slots[i][j].kind);
            }
        }
        assert(n.children_fit(model()));
    }

    /// What is written of the default is read as the default.
    pub proof fn lemma_default_round_trip(rest: Seq<Tok>)
        ensures
            decode_element_spec(
                model(),
                LEVEL as nat,
                element_tokens(model(), Self::initial()).skip(1) + rest,
            ) == Ok::<_, DecodeError>((Self::initial(), rest)),
    {
        Self::lemma_initial();
        lemma_model_well_formed();
        lemma_round_trip(model(), Self::initial(), rest);
    }
}

} // verus!
