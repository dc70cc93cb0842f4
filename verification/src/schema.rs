//! What an element kind is bound to: its tag, its attributes, its children.

use vstd::prelude::*;
use vstd::string::StringExecFns;

verus! {

/// The namespace of the main markup, which every part declares once, at its
/// root, under the prefix `w`.
pub const SCHEMA_MAIN: &'static str =
    "http://schemas.openxmlformats.org/wordprocessingml/2006/main";

/// A qualified name: a namespace prefix, which may be empty, and a local name.
#[derive(Debug)]
pub struct Name {
    pub prefix: String,
    pub local: String,
}

/// The mathematical value of a [`Name`].
pub struct NameView {
    pub prefix: Seq<char>,
    pub local: Seq<char>,
}

impl View for Name {
    type V = NameView;

    open spec fn view(&self) -> NameView {
        NameView { prefix: self.prefix@, local: self.local@ }
    }
}

impl Name {
    /// The name `prefix:local`.
    pub fn new(prefix: &str, local: &str) -> (name: Name)
        ensures
            name@ == (NameView { prefix: prefix@, local: local@ }),
    {
        Name { prefix: String::from_str(prefix), local: String::from_str(local) }
    }

    /// Whether this is the name `prefix:local`. Names are compared char by
    /// char: case counts.
    pub fn is(&self, prefix: &String, local: &String) -> (r: bool)
        ensures
            r == (self@ == (NameView { prefix: prefix@, local: local@ })),
    {
        self.prefix == *prefix && self.local == *local
    }
}

/// How the text of a value is read and written.
#[derive(Clone, Copy, Debug, PartialEq, Eq, Structural)]
pub enum Codec {
    /// `true` or `false`
    Flag,
    /// an unsigned decimal number
    Unsigned,
    /// an unsigned decimal number below 256
    Byte,
    /// a decimal number with an optional sign
    Signed,
    /// a 32-bit number in eight hexadecimal digits
    HexId,
    /// any text
    Text,
    /// one of the symbols of the table with this index
    Symbol(usize),
}

/// An attribute that an element kind knows.
#[derive(Debug)]
pub struct Attribute {
    pub name: Name,
    pub codec: Codec,
    /// whether decoding fails without it
    pub required: bool,
}

/// The mathematical value of an [`Attribute`].
pub struct AttributeView {
    pub name: NameView,
    pub codec: Codec,
    pub required: bool,
}

impl View for Attribute {
    type V = AttributeView;

    open spec fn view(&self) -> AttributeView {
        AttributeView { name: self.name@, codec: self.codec, required: self.required }
    }
}

impl Attribute {
    /// The attribute `prefix:local`.
    pub fn new(prefix: &str, local: &str, codec: Codec, required: bool) -> (a: Attribute)
        ensures
            a@ == (AttributeView {
                name: NameView { prefix: prefix@, local: local@ },
                codec,
                required,
            }),
    {
        Attribute { name: Name::new(prefix, local), codec, required }
    }
}

/// How many children a slot holds.
#[derive(Clone, Copy, Debug, PartialEq, Eq, Structural)]
pub enum Cardinality {
    /// exactly one; decoding fails without it
    Required,
    /// one or none
    Optional,
    /// exactly one; where none is read, the child kind's default stands in
    Default,
    /// any number, in document order
    Many,
}

/// One of the tags that a slot accepts, and the kind of element it stands for.
#[derive(Debug)]
pub struct Alternative {
    pub tag: Name,
    pub kind: usize,
}

/// The mathematical value of an [`Alternative`].
pub struct AlternativeView {
    pub tag: NameView,
    pub kind: nat,
}

impl View for Alternative {
    type V = AlternativeView;

    open spec fn view(&self) -> AlternativeView {
        AlternativeView { tag: self.tag@, kind: self.kind as nat }
    }
}

/// A field that holds child elements.
#[derive(Debug)]
pub struct Slot {
    pub cardinality: Cardinality,
    pub alternatives: Vec<Alternative>,
}

/// The mathematical value of a [`Slot`].
pub struct SlotView {
    pub cardinality: Cardinality,
    pub alternatives: Seq<AlternativeView>,
}

impl View for Slot {
    type V = SlotView;

    open spec fn view(&self) -> SlotView {
        SlotView {
            cardinality: self.cardinality,
            alternatives: Seq::new(self.alternatives@.len(), |i: int| self.alternatives@[i]@),
        }
    }
}

impl Alternative {
    /// The tag `prefix:local`, which stands for elements of kind `kind`.
    pub fn new(prefix: &str, local: &str, kind: usize) -> (a: Alternative)
        ensures
            a@ == (AlternativeView {
                tag: NameView { prefix: prefix@, local: local@ },
                kind: kind as nat,
            }),
    {
        Alternative { tag: Name::new(prefix, local), kind }
    }
}

impl Slot {
    /// A slot that accepts the one tag `prefix:local`.
    pub fn one(cardinality: Cardinality, prefix: &str, local: &str, kind: usize) -> (s: Slot)
        ensures
            s@ == (SlotView {
                cardinality,
                alternatives: seq![
                    AlternativeView {
                        tag: NameView { prefix: prefix@, local: local@ },
                        kind: kind as nat,
                    },
                ],
            }),
    {
        let mut alternatives: Vec<Alternative> = Vec::new();
        alternatives.push(Alternative::new(prefix, local, kind));
        let s = Slot { cardinality, alternatives };
        assert(s@.alternatives =~= seq![
            AlternativeView { tag: NameView { prefix: prefix@, local: local@ }, kind: kind as nat },
        ]);
        s
    }

    /// A slot that holds any number of children of the given alternatives.
    pub fn many(alternatives: Vec<Alternative>) -> (s: Slot)
        ensures
            s@.cardinality == Cardinality::Many,
            s@.alternatives == Seq::new(alternatives@.len(), |i: int| alternatives@[i]@),
    {
        Slot { cardinality: Cardinality::Many, alternatives }
    }
}

/// What stands between an element's tags.
#[derive(Clone, Copy, Debug, PartialEq, Eq, Structural)]
pub enum Content {
    /// child elements, held in the slots
    Children,
    /// text
    Text,
    /// drawing markup, of which a picture reference and an extent are read
    Drawing,
}

/// The description of one element kind.
#[derive(Debug)]
pub struct Descriptor {
    pub tag: Name,
    pub attributes: Vec<Attribute>,
    pub slots: Vec<Slot>,
    pub content: Content,
}

/// The mathematical value of a [`Descriptor`].
pub struct DescriptorView {
    pub tag: NameView,
    pub attributes: Seq<AttributeView>,
    pub slots: Seq<SlotView>,
    pub content: Content,
}

impl View for Descriptor {
    type V = DescriptorView;

    open spec fn view(&self) -> DescriptorView {
        DescriptorView {
            tag: self.tag@,
            attributes: Seq::new(self.attributes@.len(), |i: int| self.attributes@[i]@),
            slots: Seq::new(self.slots@.len(), |i: int| self.slots@[i]@),
            content: self.content,
        }
    }
}

/// The element kinds of a model, each known by its index, and its tables of
/// symbols.
#[derive(Debug)]
pub struct Schema {
    pub kinds: Vec<Descriptor>,
    pub symbols: Vec<Vec<String>>,
}

/// The mathematical value of a [`Schema`].
pub struct SchemaView {
    pub kinds: Seq<DescriptorView>,
    pub symbols: Seq<Seq<Seq<char>>>,
}

impl View for Schema {
    type V = SchemaView;

    open spec fn view(&self) -> SchemaView {
        SchemaView {
            kinds: Seq::new(self.kinds@.len(), |i: int| self.kinds@[i]@),
            symbols: Seq::new(
                self.symbols@.len(),
                |i: int| Seq::new(self.symbols@[i]@.len(), |j: int| self.symbols@[i]@[j]@),
            ),
        }
    }
}

impl AttributeView {
    /// Whether the codec's table of symbols exists.
    pub open spec fn valid(self, schema: SchemaView) -> bool {
        match self.codec {
            Codec::Symbol(t) => t < schema.symbols.len(),
            _ => true,
        }
    }
}

impl SlotView {
    /// Whether one of the alternatives stands for elements of kind `kind`.
    pub open spec fn accepts(self, kind: nat) -> bool {
        exists|a: int| 0 <= a < self.alternatives.len() && (#[trigger] self.alternatives[a]).kind == kind
    }

    /// Whether every alternative stands for a kind of the schema; a slot for
    /// one child has one alternative; and a default stands for a kind with a
    /// smaller index than `owner`, so that defaults end.
    pub open spec fn valid(self, schema: SchemaView, owner: nat) -> bool {
        &&& forall|j: int|
            0 <= j < self.alternatives.len() ==> (#[trigger] self.alternatives[j]).kind
                < schema.kinds.len()
        &&& self.cardinality != Cardinality::Many ==> self.alternatives.len() == 1
        &&& self.cardinality == Cardinality::Default ==> self.alternatives[0].kind < owner
            && schema.kinds[self.alternatives[0].kind as int].defaultable()
    }
}

impl DescriptorView {
    /// Whether an element of this kind can stand without anything read for
    /// it: it requires no attribute and no child, and holds children.
    pub open spec fn defaultable(self) -> bool {
        &&& self.content == Content::Children
        &&& forall|i: int| 0 <= i < self.attributes.len() ==> !(#[trigger] self.attributes[i]).required
        &&& forall|i: int|
            0 <= i < self.slots.len() ==> (#[trigger] self.slots[i]).cardinality
                != Cardinality::Required
    }

    /// Whether no two attributes have the same name and no two alternatives,
    /// of one slot or of two, the same tag.
    pub open spec fn distinct(self) -> bool {
        &&& forall|a: int, b: int|
            0 <= a < b < self.attributes.len() ==> (#[trigger] self.attributes[a]).name
                != (#[trigger] self.attributes[b]).name
        &&& forall|i: int, j: int, k: int, l: int|
            0 <= i < self.slots.len() && 0 <= j < self.slots[i].alternatives.len() && 0 <= k
                < self.slots.len() && 0 <= l < self.slots[k].alternatives.len() && (i != k || j
                != l) ==> (#[trigger] self.slots[i].alternatives[j]).tag
                != (#[trigger] self.slots[k].alternatives[l]).tag
    }

    /// Whether the description refers only to what `schema` has, and is of a
    /// shape that its content asks for.
    pub open spec fn valid(self, schema: SchemaView, owner: nat) -> bool {
        &&& forall|i: int|
            0 <= i < self.attributes.len() ==> (#[trigger] self.attributes[i]).valid(schema)
        &&& forall|i: int| 0 <= i < self.slots.len() ==> (#[trigger] self.slots[i]).valid(schema, owner)
        &&& self.content != Content::Children ==> self.slots.len() == 0
        &&& self.content == Content::Drawing ==> self.attributes.len() == 3
            && self.attributes[0].codec == Codec::Text && self.attributes[1].codec
            == Codec::Unsigned && self.attributes[2].codec == Codec::Unsigned
            && !self.attributes[0].required && !self.attributes[1].required
            && !self.attributes[2].required
    }
}

impl SchemaView {
    /// Whether the schema refers only to kinds and tables that it has.
    pub open spec fn valid(self) -> bool {
        forall|k: int| 0 <= k < self.kinds.len() ==> (#[trigger] self.kinds[k]).valid(self, k as nat)
    }
}

} // verus!
