//! Literal text.

use crate::catalog::{
    lemma_kind_text, lemma_model_well_formed, lemma_symbols_text_space, model, schema, TEXT,
    TEXT_SPACE_SYMBOLS,
};
use crate::decode::decode_element_spec;
use crate::encode::{element_tokens, encode_element};
use crate::entity::{symbol_of, symbol_scalar, symbol_value, Element, Entity};
use crate::error::{DecodeError, WriteError};
use crate::laws::lemma_round_trip;
use crate::node::{value_view, Node, NodeView, Scalar};
use crate::scalar::{find_symbol, fingerprint, is_first, lemma_symbol_round_trip, symbol_index};
use crate::schema::{
    Attribute, AttributeView, Codec, Content, Descriptor, DescriptorView, Name, NameView, Slot,
};
use crate::token::Tok;
use crate::writer::Sink;
use vstd::prelude::*;
use vstd::string::StringExecFns;

verus! {

/// How white space in a text is treated.
#[derive(Clone, Copy, Debug, PartialEq, Eq, Structural)]
pub enum TextSpace {
    Default,
    Preserve,
}

impl TextSpace {
    /// The texts of the values, each at the index of its value.
    pub open spec fn symbols_spec() -> Seq<Seq<char>> {
        seq!["default"@, "preserve"@]
    }

    /// The texts of the values, each at the index of its value.
    pub fn symbols() -> (table: Vec<String>)
        ensures
            Seq::new(table@.len(), |i: int| table@[i]@) == Self::symbols_spec(),
    {
        let mut table: Vec<String> = Vec::new();
        table.push(String::from_str("default"));
        table.push(String::from_str("preserve"));
        assert(Seq::new(table@.len(), |i: int| table@[i]@) =~= Self::symbols_spec());
        table
    }

    /// The index of the value in the table of its texts.
    pub open spec fn index_spec(self) -> usize {
        match self {
            TextSpace::Default => 0,
            TextSpace::Preserve => 1,
        }
    }

    /// The index of the value in the table of its texts.
    pub fn index(&self) -> (i: usize)
        ensures
            i == self.index_spec(),
            i < 2,
    {
        match self {
            TextSpace::Default => 0,
            TextSpace::Preserve => 1,
        }
    }

    /// The value at an index of the table.
    pub fn from_index(i: usize) -> (r: TextSpace)
        requires
            i < 2,
        ensures
            r.index_spec() == i,
    {
        if i == 0 {
            TextSpace::Default
        } else {
            TextSpace::Preserve
        }
    }

    /// The text of the value.
    pub fn as_str(&self) -> (s: &'static str)
        ensures
            s@ == Self::symbols_spec()[self.index_spec() as int],
    {
        match self {
            TextSpace::Default => "default",
            TextSpace::Preserve => "preserve",
        }
    }

    /// The value that a text denotes; `None` for a text that is not in the
    /// table.
    pub fn from_str(s: &str) -> (r: Option<TextSpace>)
        ensures
            symbol_index(Self::symbols_spec(), s@) == match r {
                Some(v) => Some(v.index_spec()),
                None => None,
            },
    {
        let table = Self::symbols();
        match find_symbol(&table, s) {
            Some(i) => {
                assert(is_first(Self::symbols_spec(), s@, i as int));
                Some(Self::from_index(i))
            },
            None => None,
        }
    }

    /// No two values have the same text.
    pub proof fn lemma_symbols_distinct()
        ensures
            Self::symbols_spec().len() == 2,
            forall|a: int, b: int|
                0 <= a < b < 2 ==> #[trigger] Self::symbols_spec()[a] != #[trigger] Self::symbols_spec()[b],
    {
        reveal_strlit("default");
        reveal_strlit("preserve");
        assert(fingerprint("default"@, 0, 0) == (7int, 'd', 't'));
        assert(fingerprint("preserve"@, 0, 0) == (8int, 'p', 'e'));
        let t = Self::symbols_spec();
        assert forall|a: int, b: int| 0 <= a < b < 2 implies #[trigger] t[a] != #[trigger] t[b] by {
            assert(fingerprint(t[a], 0, 0) != fingerprint(t[b], 0, 0));
        }
    }

    /// Every value is read back from its text.
    pub proof fn lemma_text_round_trip(v: TextSpace)
        ensures
            symbol_index(Self::symbols_spec(), Self::symbols_spec()[v.index_spec() as int]) == Some(
                v.index_spec(),
            ),
    {
        Self::lemma_symbols_distinct();
        lemma_symbol_round_trip(Self::symbols_spec(), v.index_spec() as int);
    }
}

/// Literal text.
#[derive(Debug, PartialEq)]
pub struct Text {
    /// how white space is treated
    pub space: Option<TextSpace>,
    /// the text itself
    pub text: String,
}

impl Text {
    /// What the mapping knows of the element: its tag, its attributes and
    /// the slots of its children.
    pub open spec fn descriptor_spec() -> DescriptorView {
        DescriptorView {
            tag: NameView { prefix: "w"@, local: "t"@ },
            attributes: seq![
                AttributeView {
                    name: NameView { prefix: "xml"@, local: "space"@ },
                    codec: Codec::Symbol(TEXT_SPACE_SYMBOLS),
                    required: false,
                },
            ],
            slots: Seq::empty(),
            content: Content::Text,
        }
    }

    /// What the mapping knows of the element.
    pub fn descriptor() -> (d: Descriptor)
        ensures
            d@ == Self::descriptor_spec(),
    {
        let mut attributes: Vec<Attribute> = Vec::new();
        attributes.push(Attribute::new("xml", "space", Codec::Symbol(TEXT_SPACE_SYMBOLS), false));
        let slots: Vec<Slot> = Vec::new();
        let d = Descriptor {
            tag: Name::new("w", "t"),
            attributes,
            slots,
            content: Content::Text,
        };
        proof {
            let want = Self::descriptor_spec();
            assert(d@.attributes =~= want.attributes);
            assert(d@.slots =~= want.slots);
        }
        d
    }

    /// No two attributes of the element have the same name, and no two of its
    /// slots accept the same tag.
    pub proof fn lemma_descriptor_distinct()
        ensures
            Self::descriptor_spec().distinct(),
    {
    }
}

impl Entity for Text {
    open spec fn accepts(kind: nat) -> bool {
        kind == TEXT
    }

    open spec fn node(&self) -> NodeView {
        NodeView {
            kind: TEXT as nat,
            attributes: seq![
                symbol_value(match self.space {
                    Some(s) => Some(s.index_spec()),
                    None => None,
                }),
            ],
            slots: Seq::empty(),
            text: self.text@,
        }
    }

    proof fn lemma_node_conforms(&self) {
        lemma_kind_text();
        lemma_symbols_text_space();
        let dv = Self::descriptor_spec();
        let n = self.node();
        assert(n.attributes_fit(model(), true));
        assert(n.slots_fit(model(), true));
        assert(n.children_fit(model()));
    }

    fn to_node(&self) -> (n: Node) {
        let mut attributes: Vec<Option<Scalar>> = Vec::new();
        attributes.push(
            symbol_scalar(match &self.space {
                Some(s) => Some(s.index()),
                None => None,
            }),
        );
        let slots: Vec<Vec<Node>> = Vec::new();
        let n = Node { kind: TEXT, attributes, slots, text: self.text.clone() };
        proof {
            lemma_kind_text();
            lemma_symbols_text_space();
            let dv = Self::descriptor_spec();
            let want = self.node();
            assert(n@.attributes =~= want.attributes);
            assert(n@.slots =~= want.slots);
            assert(n@.text =~= want.text);
            self.lemma_node_conforms();
        }
        n
    }

    fn from_node(n: &Node) -> (r: Text) {
        proof {
            lemma_kind_text();
            let dv = Self::descriptor_spec();
            lemma_symbols_text_space();
            assert(n@.attributes[0] == value_view(n.attributes@[0]));
        }
        let r = Text {
            space: match symbol_of(&n.attributes[0]) {
                Some(i) => Some(TextSpace::from_index(i)),
                None => None,
            },
            text: n.text.clone(),
        };
        proof {
            let got = r.node();
            assert(got.attributes =~= n@.attributes);
            assert(got.slots =~= n@.slots);
            assert(got.text =~= n@.text);
        }
        r
    }
}

impl Element for Text {
    open spec fn tokens(&self) -> Seq<Tok> {
        element_tokens(model(), self.node())
    }

    open spec fn kind_spec() -> nat {
        TEXT as nat
    }

    proof fn lemma_kind() {
        lemma_kind_text();
    }

    fn kind() -> (k: usize) {
        proof {
            lemma_kind_text();
        }
        TEXT
    }

    fn to_writer(&self, sink: &mut Sink) -> (r: Result<(), WriteError>) {
        let schema = schema();
        let node = self.to_node();
        encode_element(&schema, &node, sink)
    }
}

impl Text {
    /// The element that the default value stands for.
    pub open spec fn initial() -> NodeView {
        NodeView {
            kind: TEXT as nat,
            attributes: seq![None],
            slots: Seq::empty(),
            text: Seq::empty(),
        }
    }
}

impl Default for Text {
    fn default() -> (r: Text)
        ensures
            r.node() == Self::initial(),
    {
        let r = Text {
            space: None,
            text: String::new(),
        };
        proof {
            let got = r.node();
            let want = Self::initial();
            assert(got.attributes =~= want.attributes);
            assert(got.slots =~= want.slots);
            assert(got.text =~= want.text);
        }
        r
    }
}

impl Text {
    /// The default stands for an element of the model, all of which is
    /// written.
    pub proof fn lemma_initial()
        ensures
            Self::initial().conforms(model()),
            Self::initial().written_back(model()),
            Self::initial().kind == TEXT,
    {
        lemma_kind_text();
        lemma_symbols_text_space();
        let dv = Self::descriptor_spec();
        let n = Self::initial();
        assert(n.attributes_fit(model(), true));
        assert(n.slots_fit(model(), true));
        assert(n.children_fit(model()));
    }

    /// What is written of the default is read as the default.
    pub proof fn lemma_default_round_trip(rest: Seq<Tok>)
        ensures
            decode_element_spec(
                model(),
                TEXT as nat,
                element_tokens(model(), Self::initial()).skip(1) + rest,
            ) == Ok::<_, DecodeError>((Self::initial(), rest)),
    {
        Self::lemma_initial();
        lemma_model_well_formed();
        lemma_round_trip(model(), Self::initial(), rest);
    }
}

impl Text {
    /// The text `value`, with nothing said of its white space.
    pub fn from(value: &str) -> (r: Text)
        ensures
            r.text@ == value@,
            r.space is None,
    {
        Text { space: None, text: String::from_str(value) }
    }
}

} // verus!
