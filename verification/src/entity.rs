//! What the element types of the model have in common: each is held as a node
//! of the mapping and made from one.

use crate::catalog::{lemma_model_well_formed, model, schema};
use crate::encode::element_tokens;
use crate::laws::lemma_root_round_trip;
use crate::decode::{decode_root, decode_root_spec};
use crate::error::{DecodeError, WriteError};
use crate::lexer::{tokenize, xml_tokens};
use crate::node::{value_view, Node, NodeView, Scalar, ScalarView};
use crate::token::{Reader, Tok};
use crate::writer::{tokens_text, written, Sink};
use vstd::prelude::*;

verus! {

/// A type of the model that stands for elements of one kind, or of one of a
/// few kinds.
pub trait Entity: Sized {
    /// Whether elements of kind `kind` are values of this type.
    spec fn accepts(kind: nat) -> bool;

    /// The element that a value stands for.
    spec fn node(&self) -> NodeView;

    /// The element that a value stands for is an element of the model, of a
    /// kind that the type accepts.
    proof fn lemma_node_conforms(&self)
        ensures
            self.node().conforms(model()),
            Self::accepts(self.node().kind),
    ;

    /// The element that the value stands for, as the mapping holds it.
    fn to_node(&self) -> (n: Node)
        ensures
            n@ == self.node(),
            n@.conforms(model()),
            Self::accepts(n@.kind),
    ;

    /// The value that stands for the element `n`.
    fn from_node(n: &Node) -> (r: Self)
        requires
            n@.conforms(model()),
            Self::accepts(n@.kind),
        ensures
            r.node() == n@,
    ;
}

/// A type of the model that stands for elements of one kind, with a tag of
/// its own.
pub trait Element: Entity {
    /// The tokens that a value is written as.
    spec fn tokens(&self) -> Seq<Tok>;

    /// The index of the kind in the model.
    spec fn kind_spec() -> nat;

    /// The kind is one of the model, and the only one that the type accepts.
    proof fn lemma_kind()
        ensures
            Self::kind_spec() < model().kinds.len(),
            forall|other: nat| Self::accepts(other) <==> other == Self::kind_spec(),
    ;

    /// The index of the kind in the model.
    fn kind() -> (k: usize)
        ensures
            k == Self::kind_spec(),
            k < model().kinds.len(),
            forall|other: nat| Self::accepts(other) <==> other == k,
    ;

    /// Writes the value: the sink then holds what it held before, and behind
    /// it the text of the value's tokens. The sink is in memory, so this does
    /// not fail.
    fn to_writer(&self, sink: &mut Sink) -> (r: Result<(), WriteError>)
        ensures
            r is Ok,
            written(*final(sink)) == written(*old(sink)) + tokens_text(self.tokens()),
    ;
}

/// What a text holds of kind `kind`, as an element or the reason why none
/// was read.
pub open spec fn element_of(kind: nat, text: Seq<char>) -> Result<NodeView, DecodeError> {
    decode_root_spec(model(), kind, xml_tokens(text))
}

/// What is written of a value is read as that value: its tokens, with
/// whatever stands behind them, are read as the element that the value
/// stands for. This holds of every value that is written whole, as an
/// element of the model.
pub proof fn lemma_value_round_trip<T: Element>(v: T, rest: Seq<Tok>)
    requires
        v.node().written_back(model()),
        v.tokens() == element_tokens(model(), v.node()),
    ensures
        decode_root_spec(model(), T::kind_spec(), v.tokens() + rest) == Ok::<_, DecodeError>(
            v.node(),
        ),
{
    v.lemma_node_conforms();
    T::lemma_kind();
    lemma_model_well_formed();
    lemma_root_round_trip(model(), v.node(), rest);
}

/// Reads a value from a text that holds its element.
pub fn from_str<T: Element>(text: &str) -> (r: Result<T, DecodeError>)
    ensures
        element_of(T::kind_spec(), text@) == match r {
            Ok(v) => Ok(v.node()),
            Err(e) => Err(e),
        },
{
    let schema = schema();
    let tokens = tokenize(text);
    let mut reader = Reader::new(&tokens);
    match decode_root(&schema, T::kind(), &mut reader) {
        Ok(node) => Ok(T::from_node(&node)),
        Err(e) => Err(e),
    }
}

/// Writes a value as text: the text of its tokens. The writer is in memory,
/// so this does not fail.
pub fn to_string<T: Element>(value: &T) -> (r: Result<String, WriteError>)
    ensures
        r is Ok,
        r->Ok_0@ == tokens_text(value.tokens()),
{
    let mut sink = Sink::new();
    match value.to_writer(&mut sink) {
        Ok(()) => {
            assert(Seq::<char>::empty() + tokens_text(value.tokens()) =~= tokens_text(
                value.tokens(),
            ));
            Ok(sink.into_string())
        },
        Err(e) => Err(e),
    }
}

/// The values of `items` as elements.
pub open spec fn nodes_of_spec<T: Entity>(items: Seq<T>) -> Seq<NodeView> {
    Seq::new(items.len(), |j: int| items[j].node())
}

/// The elements that `items` stand for, in order.
pub fn nodes_of<T: Entity>(items: &Vec<T>) -> (r: Vec<Node>)
    ensures
        r.len() == items.len(),
        forall|j: int| 0 <= j < r.len() ==> (#[trigger] r@[j])@ == items@[j].node(),
        forall|j: int|
            0 <= j < r.len() ==> (#[trigger] r@[j])@.conforms(model()) && T::accepts(r@[j]@.kind),
{
    let mut r: Vec<Node> = Vec::new();
    let mut j: usize = 0;
    while j < items.len()
        invariant
            j <= items.len(),
            r.len() == j,
            forall|a: int| 0 <= a < j ==> (#[trigger] r@[a])@ == items@[a].node(),
            forall|a: int|
                0 <= a < j ==> (#[trigger] r@[a])@.conforms(model()) && T::accepts(r@[a]@.kind),
        decreases items.len() - j,
    {
        r.push(items[j].to_node());
        j = j + 1;
    }
    r
}

/// The values that stand for `nodes`, in order.
pub fn items_of<T: Entity>(nodes: &Vec<Node>) -> (r: Vec<T>)
    requires
        forall|j: int|
            0 <= j < nodes.len() ==> (#[trigger] nodes@[j])@.conforms(model()) && T::accepts(
                nodes@[j]@.kind,
            ),
    ensures
        r.len() == nodes.len(),
        forall|j: int| 0 <= j < r.len() ==> (#[trigger] r@[j]).node() == nodes@[j]@,
{
    let mut r: Vec<T> = Vec::new();
    let mut j: usize = 0;
    while j < nodes.len()
        invariant
            j <= nodes.len(),
            r.len() == j,
            forall|j: int|
                0 <= j < nodes.len() ==> (#[trigger] nodes@[j])@.conforms(model()) && T::accepts(
                    nodes@[j]@.kind,
                ),
            forall|a: int| 0 <= a < j ==> (#[trigger] r@[a]).node() == nodes@[a]@,
        decreases nodes.len() - j,
    {
        r.push(T::from_node(&nodes[j]));
        j = j + 1;
    }
    r
}

/// The element of an optional value: one or none.
pub open spec fn optional_node<T: Entity>(item: Option<T>) -> Seq<NodeView> {
    match item {
        Some(item) => seq![item.node()],
        None => Seq::empty(),
    }
}

/// The element that an optional value stands for, if there is a value.
pub fn node_of_optional<T: Entity>(item: &Option<T>) -> (r: Vec<Node>)
    ensures
        r.len() == optional_node(*item).len(),
        forall|j: int| 0 <= j < r.len() ==> (#[trigger] r@[j])@ == optional_node(*item)[j],
        forall|j: int|
            0 <= j < r.len() ==> (#[trigger] r@[j])@.conforms(model()) && T::accepts(r@[j]@.kind),
{
    let mut r: Vec<Node> = Vec::new();
    match item {
        Some(item) => {
            r.push(item.to_node());
        },
        None => {},
    }
    r
}

/// The element that a value stands for, as the one child of a slot.
pub fn node_of_one<T: Entity>(item: &T) -> (r: Vec<Node>)
    ensures
        r.len() == 1,
        r@[0]@ == item.node(),
        r@[0]@.conforms(model()),
        T::accepts(r@[0]@.kind),
{
    let mut r: Vec<Node> = Vec::new();
    r.push(item.to_node());
    r
}

/// The value of a slot for one child or none.
pub fn optional_of<T: Entity>(nodes: &Vec<Node>) -> (r: Option<T>)
    requires
        nodes.len() <= 1,
        forall|j: int|
            0 <= j < nodes.len() ==> (#[trigger] nodes@[j])@.conforms(model()) && T::accepts(
                nodes@[j]@.kind,
            ),
    ensures
        optional_node(r) =~= Seq::new(nodes@.len(), |j: int| nodes@[j]@),
{
    if nodes.len() > 0 {
        Some(T::from_node(&nodes[0]))
    } else {
        None
    }
}

/// The value of a flag, if it has one.
pub open spec fn flag_value(v: Option<bool>) -> Option<ScalarView> {
    match v {
        Some(b) => Some(ScalarView::Flag(b)),
        None => None,
    }
}

/// The value of an unsigned number, if it has one.
pub open spec fn unsigned_value(v: Option<usize>) -> Option<ScalarView> {
    match v {
        Some(n) => Some(ScalarView::Unsigned(n)),
        None => None,
    }
}

/// The value of a number below 256, if it has one.
pub open spec fn byte_value(v: Option<u8>) -> Option<ScalarView> {
    match v {
        Some(n) => Some(ScalarView::Byte(n)),
        None => None,
    }
}

/// The value of a 32-bit identifier, if it has one.
pub open spec fn id_value(v: Option<u32>) -> Option<ScalarView> {
    match v {
        Some(n) => Some(ScalarView::HexId(n)),
        None => None,
    }
}

/// The value of a symbol, if it has one, by its index.
pub open spec fn symbol_value(v: Option<usize>) -> Option<ScalarView> {
    match v {
        Some(i) => Some(ScalarView::Symbol(i)),
        None => None,
    }
}

/// The value of a signed number, if it has one.
pub open spec fn signed_value(v: Option<isize>) -> Option<ScalarView> {
    match v {
        Some(n) => Some(ScalarView::Signed(n)),
        None => None,
    }
}

/// The value of a text, if it has one.
pub open spec fn text_value(v: Option<String>) -> Option<ScalarView> {
    match v {
        Some(t) => Some(ScalarView::Text(t@)),
        None => None,
    }
}

/// A flag as the value of an attribute.
pub fn flag_scalar(v: Option<bool>) -> (r: Option<Scalar>)
    ensures
        value_view(r) == flag_value(v),
{
    match v {
        Some(b) => Some(Scalar::Flag(b)),
        None => None,
    }
}

/// An unsigned number as the value of an attribute.
pub fn unsigned_scalar(v: Option<usize>) -> (r: Option<Scalar>)
    ensures
        value_view(r) == unsigned_value(v),
{
    match v {
        Some(n) => Some(Scalar::Unsigned(n)),
        None => None,
    }
}

/// A number below 256 as the value of an attribute.
pub fn byte_scalar(v: Option<u8>) -> (r: Option<Scalar>)
    ensures
        value_view(r) == byte_value(v),
{
    match v {
        Some(n) => Some(Scalar::Byte(n)),
        None => None,
    }
}

/// A 32-bit identifier as the value of an attribute.
pub fn id_scalar(v: Option<u32>) -> (r: Option<Scalar>)
    ensures
        value_view(r) == id_value(v),
{
    match v {
        Some(n) => Some(Scalar::HexId(n)),
        None => None,
    }
}

/// The index of a symbol as the value of an attribute.
pub fn symbol_scalar(v: Option<usize>) -> (r: Option<Scalar>)
    ensures
        value_view(r) == symbol_value(v),
{
    match v {
        Some(i) => Some(Scalar::Symbol(i)),
        None => None,
    }
}

/// A signed number as the value of an attribute.
pub fn signed_scalar(v: Option<isize>) -> (r: Option<Scalar>)
    ensures
        value_view(r) == signed_value(v),
{
    match v {
        Some(n) => Some(Scalar::Signed(n)),
        None => None,
    }
}

/// A text as the value of an attribute.
pub fn text_scalar(v: &Option<String>) -> (r: Option<Scalar>)
    ensures
        value_view(r) == text_value(*v),
{
    match v {
        Some(t) => Some(Scalar::Text(t.clone())),
        None => None,
    }
}

/// The flag that an attribute holds.
pub fn flag_of(v: &Option<Scalar>) -> (r: Option<bool>)
    requires
        v matches Some(s) ==> s is Flag,
    ensures
        flag_value(r) == value_view(*v),
{
    match v {
        Some(Scalar::Flag(b)) => Some(*b),
        _ => None,
    }
}

/// The unsigned number that an attribute holds.
pub fn unsigned_of(v: &Option<Scalar>) -> (r: Option<usize>)
    requires
        v matches Some(s) ==> s is Unsigned,
    ensures
        unsigned_value(r) == value_view(*v),
{
    match v {
        Some(Scalar::Unsigned(n)) => Some(*n),
        _ => None,
    }
}

/// The number below 256 that an attribute holds.
pub fn byte_of(v: &Option<Scalar>) -> (r: Option<u8>)
    requires
        v matches Some(s) ==> s is Byte,
    ensures
        byte_value(r) == value_view(*v),
{
    match v {
        Some(Scalar::Byte(n)) => Some(*n),
        _ => None,
    }
}

/// The 32-bit identifier that an attribute holds.
pub fn id_of(v: &Option<Scalar>) -> (r: Option<u32>)
    requires
        v matches Some(s) ==> s is HexId,
    ensures
        id_value(r) == value_view(*v),
{
    match v {
        Some(Scalar::HexId(n)) => Some(*n),
        _ => None,
    }
}

/// The signed number that an attribute holds.
pub fn signed_of(v: &Option<Scalar>) -> (r: Option<isize>)
    requires
        v matches Some(s) ==> s is Signed,
    ensures
        signed_value(r) == value_view(*v),
{
    match v {
        Some(Scalar::Signed(n)) => Some(*n),
        _ => None,
    }
}

/// The text that an attribute holds.
pub fn text_of(v: &Option<Scalar>) -> (r: Option<String>)
    requires
        v matches Some(s) ==> s is Text,
    ensures
        text_value(r) == value_view(*v),
{
    match v {
        Some(Scalar::Text(t)) => Some(t.clone()),
        _ => None,
    }
}

/// The index of the symbol that an attribute holds.
pub fn symbol_of(v: &Option<Scalar>) -> (r: Option<usize>)
    requires
        v matches Some(s) ==> s is Symbol,
    ensures
        symbol_value(r) == value_view(*v),
{
    match v {
        Some(Scalar::Symbol(i)) => Some(*i),
        _ => None,
    }
}

} // verus!
