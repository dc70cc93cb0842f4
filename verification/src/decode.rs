//! Reading elements from tokens.

use crate::document::drawing::{
    consume, consume_spec, empty_drawing, Drawing, DrawingView, Handler,
};
use crate::error::DecodeError;
use crate::escape::{unescape_value, unescaped};
use crate::node::{with_attribute, with_child, Node, NodeView, Scalar, ScalarView};
use crate::scalar::{parse, parse_scalar};
use crate::schema::{
    AttributeView, Cardinality, Content, Descriptor, Name, NameView, Schema, SchemaView, SlotView,
};
use crate::token::{ElementEnd, Reader, Tok, Token};
use vstd::prelude::*;
use vstd::string::StringExecFns;

verus! {

/// Whether `i` is the first attribute of `attributes` with the name `name`.
pub open spec fn is_attribute(attributes: Seq<AttributeView>, name: NameView, i: int) -> bool {
    &&& 0 <= i < attributes.len()
    &&& attributes[i].name == name
    &&& forall|j: int| 0 <= j < i ==> (#[trigger] attributes[j]).name != name
}

/// The place of the first attribute named `name`, if there is one.
pub open spec fn attribute_index(attributes: Seq<AttributeView>, name: NameView) -> Option<int> {
    if exists|i: int| is_attribute(attributes, name, i) {
        Some(choose|i: int| is_attribute(attributes, name, i))
    } else {
        None
    }
}

/// Whether alternative `j` of slot `i` accepts the tag `tag`.
pub open spec fn accepts(slots: Seq<SlotView>, tag: NameView, i: int, j: int) -> bool {
    &&& 0 <= i < slots.len()
    &&& 0 <= j < slots[i].alternatives.len()
    &&& slots[i].alternatives[j].tag == tag
}

/// Whether alternative `j` of slot `i` is the first, slot by slot, that
/// accepts the tag `tag`.
pub open spec fn is_alternative(slots: Seq<SlotView>, tag: NameView, i: int, j: int) -> bool {
    &&& accepts(slots, tag, i, j)
    &&& forall|a: int, b: int|
        (a < i || (a == i && b < j)) ==> !#[trigger] accepts(slots, tag, a, b)
}

/// The slot and the alternative that a child with the tag `tag` goes to: the
/// first that accepts it.
pub open spec fn alternative_index(slots: Seq<SlotView>, tag: NameView) -> Option<(int, int)> {
    if exists|i: int, j: int| is_alternative(slots, tag, i, j) {
        Some(choose|p: (int, int)| is_alternative(slots, tag, p.0, p.1))
    } else {
        None
    }
}

/// An element of a kind with nothing read: no attribute has a value, no slot
/// a child.
pub open spec fn blank(schema: SchemaView, kind: nat) -> NodeView {
    NodeView {
        kind,
        attributes: Seq::new(schema.kinds[kind as int].attributes.len(), |i: int| None),
        slots: Seq::new(schema.kinds[kind as int].slots.len(), |i: int| Seq::empty()),
        text: Seq::empty(),
    }
}

/// The children that stand in slot `i` of `owner` where none was read: for a
/// slot with a default, the default of its kind.
pub open spec fn default_children(schema: SchemaView, owner: nat, slot: SlotView) -> Seq<NodeView>
    decreases owner, 0int,
{
    if slot.cardinality == Cardinality::Default && slot.alternatives.len() > 0
        && slot.alternatives[0].kind < owner {
        seq![default_node(schema, slot.alternatives[0].kind)]
    } else {
        Seq::empty()
    }
}

/// The default of a kind: no attribute has a value, and each slot with a
/// default holds the default of its kind.
pub open spec fn default_node(schema: SchemaView, kind: nat) -> NodeView
    decreases kind, 1int,
{
    NodeView {
        kind,
        attributes: Seq::new(schema.kinds[kind as int].attributes.len(), |i: int| None),
        slots: Seq::new(
            schema.kinds[kind as int].slots.len(),
            |i: int| default_children(schema, kind, schema.kinds[kind as int].slots[i]),
        ),
        text: Seq::empty(),
    }
}

/// Passing over the rest of an element whose start tag has been read, with
/// all that it holds. `depth` counts the elements that are open inside it; at
/// none, the tokens are still those of its start tag. The result is what is
/// left behind the element.
pub open spec fn skip_spec(s: Seq<Tok>, depth: nat) -> Option<Seq<Tok>>
    decreases s.len(),
{
    if s.len() == 0 {
        None
    } else {
        match s[0] {
            Tok::Invalid => None,
            Tok::Empty => if depth == 0 {
                Some(s.skip(1))
            } else {
                skip_spec(s.skip(1), depth)
            },
            Tok::Open => skip_spec(s.skip(1), depth + 1),
            Tok::Close { .. } => if depth == 0 {
                None
            } else if depth == 1 {
                Some(s.skip(1))
            } else {
                skip_spec(s.skip(1), (depth - 1) as nat)
            },
            _ => skip_spec(s.skip(1), depth),
        }
    }
}

/// Reading the attributes of an element of kind `kind` into `node`, up to the
/// end of its start tag. An attribute that the kind does not know is passed
/// over; of one that occurs twice the last value stays. The result is the
/// node, whether the element has content, and what is left.
pub open spec fn decode_attributes_spec(schema: SchemaView, kind: nat, s: Seq<Tok>, node: NodeView)
    -> Result<(NodeView, bool, Seq<Tok>), DecodeError>
    decreases s.len(),
{
    let attributes = schema.kinds[kind as int].attributes;
    if s.len() == 0 {
        Err(DecodeError::MalformedStream)
    } else {
        match s[0] {
            Tok::Attr { prefix, local, value } => match attribute_index(
                attributes,
                NameView { prefix, local },
            ) {
                None => decode_attributes_spec(schema, kind, s.skip(1), node),
                Some(i) => match unescaped(value) {
                    None => Err(DecodeError::MalformedStream),
                    Some(text) => match parse_scalar(schema.symbols, attributes[i].codec, text) {
                        None => Err(DecodeError::SchemaViolation),
                        Some(v) => decode_attributes_spec(
                            schema,
                            kind,
                            s.skip(1),
                            with_attribute(node, i, v),
                        ),
                    },
                },
            },
            Tok::Open => Ok((node, true, s.skip(1))),
            Tok::Empty => Ok((node, false, s.skip(1))),
            _ => Err(DecodeError::MalformedStream),
        }
    }
}

/// Reading the text between an element's tags, behind `text`, up to and
/// including its closing tag.
pub open spec fn decode_text_spec(tag: NameView, s: Seq<Tok>, text: Seq<char>) -> Result<
    (Seq<char>, Seq<Tok>),
    DecodeError,
>
    decreases s.len(),
{
    if s.len() == 0 {
        Err(DecodeError::MalformedStream)
    } else {
        match s[0] {
            Tok::Text { text: raw } => match unescaped(raw) {
                None => Err(DecodeError::MalformedStream),
                Some(t) => decode_text_spec(tag, s.skip(1), text + t),
            },
            Tok::Cdata { text: t } => decode_text_spec(tag, s.skip(1), text + t),
            Tok::Close { prefix, local } => if (NameView { prefix, local }) == tag {
                Ok((text, s.skip(1)))
            } else {
                Err(DecodeError::MalformedStream)
            },
            _ => Err(DecodeError::MalformedStream),
        }
    }
}

/// The node that a drawing is held as: its picture reference and its extent
/// as the values of three attributes.
pub open spec fn drawing_node(kind: nat, d: DrawingView) -> NodeView {
    NodeView {
        kind,
        attributes: seq![
            match d.embed {
                Some(e) => Some(ScalarView::Text(e)),
                None => None,
            },
            match d.width {
                Some(w) => Some(ScalarView::Unsigned(w)),
                None => None,
            },
            match d.height {
                Some(h) => Some(ScalarView::Unsigned(h)),
                None => None,
            },
        ],
        slots: Seq::empty(),
        text: Seq::empty(),
    }
}

/// Whether no required attribute of `node` is without a value and no required
/// slot without a child.
pub open spec fn complete(schema: SchemaView, node: NodeView) -> bool {
    let d = schema.kinds[node.kind as int];
    &&& forall|i: int|
        0 <= i < d.attributes.len() && (#[trigger] d.attributes[i]).required
            ==> node.attributes[i] is Some
    &&& forall|i: int|
        0 <= i < d.slots.len() && (#[trigger] d.slots[i]).cardinality == Cardinality::Required
            ==> node.slots[i].len() > 0
}

/// The node with each empty slot that has a default filled by it.
pub open spec fn with_defaults(schema: SchemaView, node: NodeView) -> NodeView {
    let d = schema.kinds[node.kind as int];
    NodeView {
        slots: Seq::new(
            node.slots.len(),
            |i: int|
                if node.slots[i].len() == 0 {
                    default_children(schema, node.kind, d.slots[i])
                } else {
                    node.slots[i]
                },
        ),
        ..node
    }
}

/// What an element is once its last token is read: complete, and with its
/// defaults; else the schema is violated.
pub open spec fn finish_spec(schema: SchemaView, node: NodeView) -> Result<NodeView, DecodeError> {
    if complete(schema, node) {
        Ok(with_defaults(schema, node))
    } else {
        Err(DecodeError::SchemaViolation)
    }
}

/// Reading the children of an element of kind `kind` into `node`, up to and
/// including its closing tag. A child goes to the first slot that accepts its
/// tag, in the order of arrival; one that no slot accepts is passed over with
/// all that it holds; text between the children is passed over.
pub open spec fn decode_children_spec(schema: SchemaView, kind: nat, s: Seq<Tok>, node: NodeView)
    -> Result<(NodeView, Seq<Tok>), DecodeError>
    decreases s.len(), 0int,
{
    let d = schema.kinds[kind as int];
    if s.len() == 0 {
        Err(DecodeError::MalformedStream)
    } else {
        match s[0] {
            Tok::Start { prefix, local } => match alternative_index(
                d.slots,
                NameView { prefix, local },
            ) {
                None => match skip_spec(s.skip(1), 0) {
                    None => Err(DecodeError::MalformedStream),
                    Some(rest) => if rest.len() < s.len() {
                        decode_children_spec(schema, kind, rest, node)
                    } else {
                        Err(DecodeError::MalformedStream)
                    },
                },
                Some((i, j)) => match decode_element_spec(
                    schema,
                    d.slots[i].alternatives[j].kind,
                    s.skip(1),
                ) {
                    Err(e) => Err(e),
                    Ok((child, rest)) => if rest.len() < s.len() {
                        decode_children_spec(
                            schema,
                            kind,
                            rest,
                            with_child(node, i, d.slots[i].cardinality, child),
                        )
                    } else {
                        Err(DecodeError::MalformedStream)
                    },
                },
            },
            Tok::Close { prefix, local } => if (NameView { prefix, local }) == d.tag {
                Ok((node, s.skip(1)))
            } else {
                Err(DecodeError::MalformedStream)
            },
            Tok::Text { .. } | Tok::Cdata { .. } | Tok::Misc => decode_children_spec(
                schema,
                kind,
                s.skip(1),
                node,
            ),
            _ => Err(DecodeError::MalformedStream),
        }
    }
}

/// Reading what stands between the tags of an element of kind `kind`, whose
/// attributes are in `node`.
pub open spec fn decode_content_spec(schema: SchemaView, kind: nat, s: Seq<Tok>, node: NodeView)
    -> Result<(NodeView, Seq<Tok>), DecodeError>
    decreases s.len(), 1int,
{
    let d = schema.kinds[kind as int];
    if d.content == Content::Text {
        match decode_text_spec(d.tag, s, Seq::empty()) {
            Err(e) => Err(e),
            Ok((text, rest)) => Ok((NodeView { text, ..node }, rest)),
        }
    } else {
        decode_children_spec(schema, kind, s, node)
    }
}

/// Reading an element of kind `kind` whose start tag has been read: its
/// attributes, then its content unless it is self-closing, then the check
/// that nothing required is absent. The result is the element and what is
/// left behind it.
pub open spec fn decode_element_spec(schema: SchemaView, kind: nat, s: Seq<Tok>) -> Result<
    (NodeView, Seq<Tok>),
    DecodeError,
>
    decreases s.len(), 2int,
{
    let d = schema.kinds[kind as int];
    if d.content == Content::Drawing {
        match consume_spec(Handler::Any, s, empty_drawing()) {
            Err(e) => Err(e),
            Ok((drawing, rest)) => Ok((drawing_node(kind, drawing), rest)),
        }
    } else {
        match decode_attributes_spec(schema, kind, s, blank(schema, kind)) {
            Err(e) => Err(e),
            Ok((node, open, rest)) => {
                let content = if !open {
                    Ok((node, rest))
                } else if rest.len() <= s.len() {
                    decode_content_spec(schema, kind, rest, node)
                } else {
                    Err(DecodeError::MalformedStream)
                };
                match content {
                    Err(e) => Err(e),
                    Ok((node, rest)) => match finish_spec(schema, node) {
                        Err(e) => Err(e),
                        Ok(node) => Ok((node, rest)),
                    },
                }
            },
        }
    }
}

/// Reading the element of kind `kind` that a text holds: what stands before
/// its start tag is passed over, declarations, comments and other elements.
pub open spec fn decode_root_spec(schema: SchemaView, kind: nat, s: Seq<Tok>) -> Result<
    NodeView,
    DecodeError,
>
    decreases s.len(),
{
    if s.len() == 0 {
        Err(DecodeError::MalformedStream)
    } else {
        match s[0] {
            Tok::Start { prefix, local } => if (NameView { prefix, local })
                == schema.kinds[kind as int].tag {
                match decode_element_spec(schema, kind, s.skip(1)) {
                    Err(e) => Err(e),
                    Ok((node, _)) => Ok(node),
                }
            } else {
                match skip_spec(s.skip(1), 0) {
                    None => Err(DecodeError::MalformedStream),
                    Some(rest) => if rest.len() < s.len() {
                        decode_root_spec(schema, kind, rest)
                    } else {
                        Err(DecodeError::MalformedStream)
                    },
                }
            },
            Tok::Misc => decode_root_spec(schema, kind, s.skip(1)),
            _ => Err(DecodeError::MalformedStream),
        }
    }
}

/// Finds the attribute of `d` that is named `prefix:local`.
fn find_attribute(d: &Descriptor, prefix: &String, local: &String) -> (r: Option<usize>)
    ensures
        attribute_index(d@.attributes, NameView { prefix: prefix@, local: local@ }) == match r {
            Some(i) => Some(i as int),
            None => None,
        },
        r is Some ==> r->0 < d.attributes.len(),
{
    let ghost name = NameView { prefix: prefix@, local: local@ };
    let mut i: usize = 0;
    while i < d.attributes.len()
        invariant
            i <= d.attributes.len(),
            name == (NameView { prefix: prefix@, local: local@ }),
            forall|j: int| 0 <= j < i ==> (#[trigger] d@.attributes[j]).name != name,
        decreases d.attributes.len() - i,
    {
        if d.attributes[i].name.is(prefix, local) {
            assert(is_attribute(d@.attributes, name, i as int));
            let ghost c = choose|c: int| is_attribute(d@.attributes, name, c);
            assert(c == i) by {
                if i < c {
                    assert(d@.attributes[i as int].name != name);
                }
            }
            return Some(i);
        }
        i = i + 1;
    }
    assert(forall|c: int| !is_attribute(d@.attributes, name, c));
    None
}

/// Finds the slot of `d`, and in it the alternative, that a child with the tag
/// `prefix:local` goes to.
fn find_alternative(d: &Descriptor, prefix: &String, local: &String) -> (r: Option<(usize, usize)>)
    ensures
        alternative_index(d@.slots, NameView { prefix: prefix@, local: local@ }) == match r {
            Some((i, j)) => Some((i as int, j as int)),
            None => None,
        },
        match r {
            Some((i, j)) => i < d.slots.len() && j < d.slots[i as int].alternatives.len(),
            None => true,
        },
{
    let ghost tag = NameView { prefix: prefix@, local: local@ };
    let ghost slots = d@.slots;
    let mut i: usize = 0;
    while i < d.slots.len()
        invariant
            i <= d.slots.len(),
            slots == d@.slots,
            tag == (NameView { prefix: prefix@, local: local@ }),
            forall|a: int, b: int| a < i ==> !#[trigger] accepts(slots, tag, a, b),
        decreases d.slots.len() - i,
    {
        let slot = &d.slots[i];
        let mut j: usize = 0;
        while j < slot.alternatives.len()
            invariant
                i < d.slots.len(),
                slot == d.slots[i as int],
                j <= slot.alternatives.len(),
                slots == d@.slots,
                tag == (NameView { prefix: prefix@, local: local@ }),
                forall|a: int, b: int| a < i ==> !#[trigger] accepts(slots, tag, a, b),
                forall|b: int| b < j ==> !#[trigger] accepts(slots, tag, i as int, b),
            decreases slot.alternatives.len() - j,
        {
            if slot.alternatives[j].tag.is(prefix, local) {
                assert(is_alternative(slots, tag, i as int, j as int));
                let ghost c = choose|p: (int, int)| is_alternative(slots, tag, p.0, p.1);
                let ghost here = (i as int, j as int);
                assert(is_alternative(slots, tag, here.0, here.1));
                assert(c == (i as int, j as int)) by {
                    if c.0 < i || (c.0 == i && c.1 < j) {
                        assert(!accepts(slots, tag, c.0, c.1));
                    } else if i < c.0 || (i == c.0 && j < c.1) {
                        assert(!accepts(slots, tag, i as int, j as int));
                    }
                }
                return Some((i, j));
            }
            j = j + 1;
        }
        assert(forall|b: int| !#[trigger] accepts(slots, tag, i as int, b));
        i = i + 1;
    }
    assert(forall|a: int, b: int| !is_alternative(slots, tag, a, b));
    None
}

/// A node of kind `kind` with nothing read.
fn blank_node(schema: &Schema, kind: usize) -> (n: Node)
    requires
        kind < schema.kinds.len(),
    ensures
        n@ == blank(schema@, kind as nat),
{
    let d = &schema.kinds[kind];
    let mut attributes: Vec<Option<Scalar>> = Vec::new();
    while attributes.len() < d.attributes.len()
        invariant
            attributes.len() <= d.attributes.len(),
            forall|i: int| 0 <= i < attributes.len() ==> attributes@[i] is None,
        decreases d.attributes.len() - attributes.len(),
    {
        attributes.push(None);
    }
    let mut slots: Vec<Vec<Node>> = Vec::new();
    while slots.len() < d.slots.len()
        invariant
            slots.len() <= d.slots.len(),
            forall|i: int| 0 <= i < slots.len() ==> slots@[i]@.len() == 0,
        decreases d.slots.len() - slots.len(),
    {
        slots.push(Vec::new());
    }
    let n = Node { kind, attributes, slots, text: String::new() };
    proof {
        let want = blank(schema@, kind as nat);
        assert(n@.attributes =~= want.attributes);
        assert forall|i: int| 0 <= i < want.slots.len() implies n@.slots[i] == want.slots[i] by {
            assert(n@.slots[i] =~= want.slots[i]);
        }
        assert(n@.slots =~= want.slots);
    }
    n
}

/// The default of kind `kind`.
pub fn default_of(schema: &Schema, kind: usize) -> (n: Node)
    requires
        schema@.valid(),
        kind < schema.kinds.len(),
        schema@.kinds[kind as int].defaultable(),
    ensures
        n@ == default_node(schema@, kind as nat),
        n@.conforms(schema@),
    decreases kind,
{
    let d = &schema.kinds[kind];
    let mut n = blank_node(schema, kind);
    let mut i: usize = 0;
    while i < d.slots.len()
        invariant
            schema@.valid(),
            kind < schema.kinds.len(),
            d == schema.kinds[kind as int],
            schema@.kinds[kind as int].defaultable(),
            i <= d.slots.len(),
            n@.kind == kind,
            n@.text.len() == 0,
            n@.attributes == blank(schema@, kind as nat).attributes,
            n@.slots.len() == d.slots.len(),
            forall|a: int|
                0 <= a < i ==> #[trigger] n@.slots[a] == default_children(
                    schema@,
                    kind as nat,
                    schema@.kinds[kind as int].slots[a],
                ),
            forall|a: int| i <= a < d.slots.len() ==> (#[trigger] n@.slots[a]).len() == 0,
            forall|a: int, b: int|
                0 <= a < i && 0 <= b < n@.slots[a].len() ==> (#[trigger] n@.slots[a][b]).conforms(
                    schema@,
                ) && n@.slots[a][b].kind == schema@.kinds[kind as int].slots[a].alternatives[0].kind,
        decreases d.slots.len() - i,
    {
        assert(schema@.kinds[kind as int].slots[i as int].valid(schema@, kind as nat));
        assert(schema@.kinds[kind as int].slots[i as int] == d.slots[i as int]@);
        match d.slots[i].cardinality {
            Cardinality::Default => {
                assert(d.slots[i as int]@.alternatives[0] == d.slots[i as int].alternatives[0]@);
                let child = default_of(schema, d.slots[i].alternatives[0].kind);
                n.add_child(i, Cardinality::Default, child);
            },
            _ => {},
        }
        i = i + 1;
    }
    proof {
        let want = default_node(schema@, kind as nat);
        let dv = schema@.kinds[kind as int];
        assert(n@.slots =~= want.slots);
        assert(n@.attributes =~= want.attributes);
        assert(n@.text =~= want.text);
        assert(dv == d@);
        assert(n@.attributes_fit(schema@, true));
        assert(n@.slots_fit(schema@, true)) by {
            assert forall|a: int| 0 <= a < n@.slots.len() implies match dv.slots[a].cardinality {
                Cardinality::Required => (#[trigger] n@.slots[a]).len() <= 1 && n@.slots[a].len() == 1,
                Cardinality::Optional => n@.slots[a].len() <= 1,
                Cardinality::Default => n@.slots[a].len() <= 1 && n@.slots[a].len() == 1,
                Cardinality::Many => true,
            } by {
                assert(dv.slots[a].valid(schema@, kind as nat));
            }
        }
        assert(n@.children_fit(schema@)) by {
            assert forall|a: int, b: int|
                0 <= a < n@.slots.len() && 0 <= b < n@.slots[a].len() implies dv.slots[a].accepts((#[trigger] n@.slots[a][b]).kind) by {
                assert(dv.slots[a].valid(schema@, kind as nat));
                assert(dv.slots[a].alternatives[0].kind == n@.slots[a][b].kind);
            }
        }
    }
    n
}

/// Passes over the rest of an element whose start tag has been read.
fn skip_element(reader: &mut Reader<'_>) -> (r: Result<(), DecodeError>)
    ensures
        final(reader)@.len() <= old(reader)@.len(),
        match skip_spec(old(reader)@, 0) {
            Some(rest) => r is Ok && final(reader)@ == rest,
            None => r == Err::<(), _>(DecodeError::MalformedStream),
        },
{
    let ghost s0 = reader@;
    proof {
        reader.lemma_bounded();
    }
    let mut depth: usize = 0;
    loop
        invariant
            s0 == old(reader)@,
            s0.len() <= usize::MAX,
            reader@.len() <= s0.len(),
            depth <= s0.len() - reader@.len(),
            skip_spec(s0, 0) == skip_spec(reader@, depth as nat),
        decreases reader@.len(),
    {
        let token = match reader.next() {
            Some(token) => token,
            None => { return Err(DecodeError::MalformedStream) },
        };
        match token {
            Token::Invalid => {
                return Err(DecodeError::MalformedStream);
            },
            Token::ElementEnd { end: ElementEnd::Empty } => {
                if depth == 0 {
                    return Ok(());
                }
            },
            Token::ElementEnd { end: ElementEnd::Open } => {
                depth = depth + 1;
            },
            Token::ElementEnd { end: ElementEnd::Close { .. } } => {
                if depth == 0 {
                    return Err(DecodeError::MalformedStream);
                } else if depth == 1 {
                    return Ok(());
                } else {
                    depth = depth - 1;
                }
            },
            _ => {},
        }
    }
}

/// Reads the attributes of an element of kind `kind` into `node`, up to the
/// end of its start tag. Returns whether the element has content.
fn decode_attributes(schema: &Schema, kind: usize, reader: &mut Reader<'_>, node: &mut Node) -> (r:
    Result<bool, DecodeError>)
    requires
        kind < schema.kinds.len(),
        old(node)@.kind == kind,
        old(node)@.shaped(schema@),
    ensures
        final(reader)@.len() <= old(reader)@.len(),
        decode_attributes_spec(schema@, kind as nat, old(reader)@, old(node)@) == match r {
            Ok(open) => Ok((final(node)@, open, final(reader)@)),
            Err(e) => Err(e),
        },
        r is Ok ==> final(node)@.shaped(schema@) && final(node)@.kind == kind && final(node)@.slots
            == old(node)@.slots,
{
    let d = &schema.kinds[kind];
    let ghost s0 = reader@;
    let ghost n0 = node@;
    loop
        invariant
            kind < schema.kinds.len(),
            d == schema.kinds[kind as int],
            s0 == old(reader)@,
            n0 == old(node)@,
            reader@.len() <= s0.len(),
            node@.kind == kind,
            node@.shaped(schema@),
            node@.slots == n0.slots,
            decode_attributes_spec(schema@, kind as nat, s0, n0) == decode_attributes_spec(
                schema@,
                kind as nat,
                reader@,
                node@,
            ),
        decreases reader@.len(),
    {
        let token = match reader.next() {
            Some(token) => token,
            None => { return Err(DecodeError::MalformedStream) },
        };
        match token {
            Token::Attribute { prefix, local, value } => {
                match find_attribute(d, prefix, local) {
                    None => {},
                    Some(i) => {
                        let text = match unescape_value(value.as_str()) {
                            Some(text) => text,
                            None => { return Err(DecodeError::MalformedStream) },
                        };
                        let v = match parse(schema, d.attributes[i].codec, text.as_str()) {
                            Some(v) => v,
                            None => { return Err(DecodeError::SchemaViolation) },
                        };
                        let ghost before = node@;
                        node.set_attribute(i, v);
                        proof {
                            let after = node@;
                            let dv = schema@.kinds[kind as int];
                            assert(dv == d@);
                            assert(dv.attributes[i as int] == d.attributes[i as int]@);
                            assert forall|a: int| 0 <= a < after.attributes.len() implies match #[trigger] after.attributes[a] {
                                Some(v) => v.fits(dv.attributes[a].codec, schema@),
                                None => true,
                            } by {
                                if a != i {
                                    assert(after.attributes[a] == before.attributes[a]);
                                }
                            }
                            assert(after.attributes_fit(schema@, false));
                            assert(after.shaped(schema@));
                        }
                    },
                }
            },
            Token::ElementEnd { end: ElementEnd::Open } => {
                return Ok(true);
            },
            Token::ElementEnd { end: ElementEnd::Empty } => {
                return Ok(false);
            },
            _ => {
                return Err(DecodeError::MalformedStream);
            },
        }
    }
}

/// Reads the text between the tags of an element named `tag`, up to and
/// including its closing tag.
fn decode_text(tag: &Name, reader: &mut Reader<'_>) -> (r: Result<String, DecodeError>)
    ensures
        final(reader)@.len() <= old(reader)@.len(),
        decode_text_spec(tag@, old(reader)@, Seq::empty()) == match r {
            Ok(text) => Ok((text@, final(reader)@)),
            Err(e) => Err(e),
        },
{
    let ghost s0 = reader@;
    let mut text = String::new();
    loop
        invariant
            s0 == old(reader)@,
            reader@.len() <= s0.len(),
            decode_text_spec(tag@, s0, Seq::empty()) == decode_text_spec(tag@, reader@, text@),
        decreases reader@.len(),
    {
        let token = match reader.next() {
            Some(token) => token,
            None => { return Err(DecodeError::MalformedStream) },
        };
        match token {
            Token::Text { text: raw } => {
                match unescape_value(raw.as_str()) {
                    Some(t) => {
                        text.append(t.as_str());
                    },
                    None => {
                        return Err(DecodeError::MalformedStream);
                    },
                }
            },
            Token::Cdata { text: t } => {
                text.append(t.as_str());
            },
            Token::ElementEnd { end: ElementEnd::Close { prefix, local } } => {
                if tag.is(prefix, local) {
                    return Ok(text);
                } else {
                    return Err(DecodeError::MalformedStream);
                }
            },
            _ => {
                return Err(DecodeError::MalformedStream);
            },
        }
    }
}

/// The node that holds a drawing.
fn drawing_to_node(kind: usize, d: Drawing) -> (n: Node)
    ensures
        n@ == drawing_node(kind as nat, d@),
{
    let mut attributes: Vec<Option<Scalar>> = Vec::new();
    attributes.push(
        match d.embed {
            Some(e) => Some(Scalar::Text(e)),
            None => None,
        },
    );
    attributes.push(
        match d.width {
            Some(w) => Some(Scalar::Unsigned(w)),
            None => None,
        },
    );
    attributes.push(
        match d.height {
            Some(h) => Some(Scalar::Unsigned(h)),
            None => None,
        },
    );
    let n = Node { kind, attributes, slots: Vec::new(), text: String::new() };
    proof {
        let want = drawing_node(kind as nat, d@);
        assert(n@.attributes =~= want.attributes);
        assert(n@.slots =~= want.slots);
        assert(n@.text =~= want.text);
    }
    n
}

/// Checks that nothing required is absent from `node` and gives each empty
/// slot that has a default that default.
fn finish(schema: &Schema, node: Node) -> (r: Result<Node, DecodeError>)
    requires
        schema@.valid(),
        node@.shaped(schema@),
    ensures
        finish_spec(schema@, node@) == match r {
            Ok(n) => Ok(n@),
            Err(e) => Err(e),
        },
        r is Ok ==> r->Ok_0@.conforms(schema@) && r->Ok_0@.kind == node@.kind,
{
    let kind = node.kind;
    let d = &schema.kinds[kind];
    let ghost dv = schema@.kinds[kind as int];
    assert(dv == d@);
    let mut i: usize = 0;
    while i < d.attributes.len()
        invariant
            i <= d.attributes.len(),
            dv == d@,
            node@.kind < schema@.kinds.len(),
            dv == schema@.kinds[node@.kind as int],
            node.attributes.len() == d.attributes.len(),
            forall|a: int|
                0 <= a < i && (#[trigger] dv.attributes[a]).required ==> node@.attributes[a] is Some,
        decreases d.attributes.len() - i,
    {
        if d.attributes[i].required && node.attributes[i].is_none() {
            assert(dv.attributes[i as int].required);
            return Err(DecodeError::SchemaViolation);
        }
        i = i + 1;
    }
    let ghost n0 = node@;
    let mut out = node;
    let mut i: usize = 0;
    while i < d.slots.len()
        invariant
            schema@.valid(),
            kind < schema.kinds.len(),
            d == schema.kinds[kind as int],
            dv == d@,
            dv == schema@.kinds[kind as int],
            i <= d.slots.len(),
            n0 == node@,
            n0.shaped(schema@),
            n0.kind == kind,
            out@.kind == kind,
            out@.text == n0.text,
            out@.attributes == n0.attributes,
            out@.slots.len() == d.slots.len(),
            forall|a: int|
                0 <= a < i ==> #[trigger] out@.slots[a] == with_defaults(schema@, n0).slots[a],
            forall|a: int| i <= a < d.slots.len() ==> #[trigger] out@.slots[a] == n0.slots[a],
            forall|a: int|
                0 <= a < i && (#[trigger] dv.slots[a]).cardinality == Cardinality::Required
                    ==> n0.slots[a].len() > 0,
            out@.children_fit(schema@),
            forall|a: int, b: int|
                0 <= a < out@.slots.len() && 0 <= b < out@.slots[a].len() ==> (#[trigger] out@.slots[a][b]).conforms(
                    schema@,
                ),
        decreases d.slots.len() - i,
    {
        assert(dv.slots[i as int].valid(schema@, kind as nat));
        assert(dv.slots[i as int] == d.slots[i as int]@);
        assert(out@.slots[i as int] == n0.slots[i as int]);
        assert(out@.slots[i as int].len() == out.slots@[i as int]@.len());
        if out.slots[i].len() == 0 {
            match d.slots[i].cardinality {
                Cardinality::Required => {
                    return Err(DecodeError::SchemaViolation);
                },
                Cardinality::Default => {
                    assert(d.slots[i as int]@.alternatives[0] == d.slots[i as int].alternatives[0]@);
                    let child = default_of(schema, d.slots[i].alternatives[0].kind);
                    let ghost before = out@;
                    out.add_child(i, Cardinality::Default, child);
                    proof {
                        let after = out@;
                        assert(after.slots[i as int][0] == child@);
                        assert forall|a: int, b: int|
                            0 <= a < after.slots.len() && 0 <= b < after.slots[a].len() implies dv.slots[a].accepts((#[trigger] after.slots[a][b]).kind) by {
                            if a == i {
                                assert(after.slots[a][b] == child@);
                                assert(dv.slots[a].alternatives[0].kind == child@.kind);
                            } else {
                                assert(after.slots[a][b] == before.slots[a][b]);
                            }
                        }
                        assert forall|a: int, b: int|
                            0 <= a < after.slots.len() && 0 <= b < after.slots[a].len() implies (#[trigger] after.slots[a][b]).conforms(
                            schema@,
                        ) by {
                            if a == i {
                                assert(after.slots[a][b] == child@);
                            } else {
                                assert(after.slots[a][b] == before.slots[a][b]);
                            }
                        }
                    }
                },
                _ => {
                    assert(out@.slots[i as int] =~= with_defaults(schema@, n0).slots[i as int]);
                },
            }
        }
        i = i + 1;
    }
    proof {
        let want = with_defaults(schema@, n0);
        assert(out@.slots =~= want.slots);
        assert(complete(schema@, n0));
        assert(out@.slots_fit(schema@, true)) by {
            assert forall|a: int| 0 <= a < out@.slots.len() implies match dv.slots[a].cardinality {
                Cardinality::Required => (#[trigger] out@.slots[a]).len() <= 1 && out@.slots[a].len()
                    == 1,
                Cardinality::Optional => out@.slots[a].len() <= 1,
                Cardinality::Default => out@.slots[a].len() <= 1 && out@.slots[a].len() == 1,
                Cardinality::Many => true,
            } by {
                assert(dv.slots[a].valid(schema@, kind as nat));
                assert(n0.slots[a].len() <= 1 || dv.slots[a].cardinality == Cardinality::Many);
            }
        }
        assert(out@.attributes_fit(schema@, true)) by {
            assert forall|a: int| 0 <= a < out@.attributes.len() implies match #[trigger] out@.attributes[a] {
                Some(v) => v.fits(dv.attributes[a].codec, schema@),
                None => !dv.attributes[a].required,
            } by {
                assert(dv.attributes[a].required ==> n0.attributes[a] is Some);
            }
        }
    }
    Ok(out)
}

/// Reads the children of an element of kind `kind` into `node`, up to and
/// including its closing tag.
fn decode_children(schema: &Schema, kind: usize, reader: &mut Reader<'_>, node: &mut Node) -> (r:
    Result<(), DecodeError>)
    requires
        schema@.valid(),
        kind < schema.kinds.len(),
        old(node)@.kind == kind,
        old(node)@.shaped(schema@),
    ensures
        final(reader)@.len() <= old(reader)@.len(),
        decode_children_spec(schema@, kind as nat, old(reader)@, old(node)@) == match r {
            Ok(()) => Ok((final(node)@, final(reader)@)),
            Err(e) => Err(e),
        },
        r is Ok ==> final(node)@.shaped(schema@) && final(node)@.kind == kind,
    decreases old(reader)@.len(), 0int,
{
    let d = &schema.kinds[kind];
    let ghost dv = schema@.kinds[kind as int];
    let ghost s0 = reader@;
    let ghost n0 = node@;
    assert(dv == d@);
    loop
        invariant
            schema@.valid(),
            kind < schema.kinds.len(),
            d == schema.kinds[kind as int],
            dv == d@,
            dv == schema@.kinds[kind as int],
            s0 == old(reader)@,
            n0 == old(node)@,
            reader@.len() <= s0.len(),
            node@.kind == kind,
            node@.shaped(schema@),
            decode_children_spec(schema@, kind as nat, s0, n0) == decode_children_spec(
                schema@,
                kind as nat,
                reader@,
                node@,
            ),
        decreases reader@.len(),
    {
        let ghost s = reader@;
        let token = match reader.next() {
            Some(token) => token,
            None => { return Err(DecodeError::MalformedStream) },
        };
        match token {
            Token::ElementStart { prefix, local } => {
                match find_alternative(d, prefix, local) {
                    None => {
                        match skip_element(reader) {
                            Ok(()) => {},
                            Err(e) => {
                                return Err(e);
                            },
                        }
                    },
                    Some((i, j)) => {
                        assert(dv.slots[i as int] == d.slots[i as int]@);
                        assert(dv.slots[i as int].alternatives[j as int]
                            == d.slots[i as int].alternatives[j as int]@);
                        assert(dv.slots[i as int].valid(schema@, kind as nat));
                        let child = match decode_element(
                            schema,
                            d.slots[i].alternatives[j].kind,
                            reader,
                        ) {
                            Ok(child) => child,
                            Err(e) => {
                                return Err(e);
                            },
                        };
                        let ghost before = node@;
                        node.add_child(i, d.slots[i].cardinality, child);
                        proof {
                            let after = node@;
                            assert forall|a: int, b: int|
                                0 <= a < after.slots.len() && 0 <= b < after.slots[a].len() implies dv.slots[a].accepts((#[trigger] after.slots[a][b]).kind) by {
                                if a == i {
                                    if b < before.slots[a].len() && d.slots[i as int].cardinality
                                        == Cardinality::Many {
                                        assert(after.slots[a][b] == before.slots[a][b]);
                                    } else {
                                        assert(after.slots[a][b] == child@);
                                        assert(dv.slots[a].alternatives[j as int].kind == child@.kind);
                                    }
                                } else {
                                    assert(after.slots[a][b] == before.slots[a][b]);
                                }
                            }
                            assert forall|a: int, b: int|
                                0 <= a < after.slots.len() && 0 <= b < after.slots[a].len() implies (#[trigger] after.slots[a][b]).conforms(
                                schema@,
                            ) by {
                                if a == i {
                                    if b < before.slots[a].len() && d.slots[i as int].cardinality
                                        == Cardinality::Many {
                                        assert(after.slots[a][b] == before.slots[a][b]);
                                    } else {
                                        assert(after.slots[a][b] == child@);
                                    }
                                } else {
                                    assert(after.slots[a][b] == before.slots[a][b]);
                                }
                            }
                            assert forall|a: int| 0 <= a < after.slots.len() implies match dv.slots[a].cardinality {
                                Cardinality::Required => (#[trigger] after.slots[a]).len() <= 1,
                                Cardinality::Optional => after.slots[a].len() <= 1,
                                Cardinality::Default => after.slots[a].len() <= 1,
                                Cardinality::Many => true,
                            } by {
                                if a != i {
                                    assert(after.slots[a] == before.slots[a]);
                                }
                            }
                            assert(after.attributes == before.attributes);
                            assert(after.text == before.text);
                            assert(after.slots_fit(schema@, false));
                            assert(after.children_fit(schema@));
                            assert(after.shaped(schema@));
                        }
                    },
                }
            },
            Token::ElementEnd { end: ElementEnd::Close { prefix, local } } => {
                if d.tag.is(prefix, local) {
                    return Ok(());
                } else {
                    return Err(DecodeError::MalformedStream);
                }
            },
            Token::Text { .. } | Token::Cdata { .. } | Token::Misc => {},
            _ => {
                return Err(DecodeError::MalformedStream);
            },
        }
    }
}

/// Reads an element of kind `kind` whose start tag has been read.
pub fn decode_element(schema: &Schema, kind: usize, reader: &mut Reader<'_>) -> (r: Result<
    Node,
    DecodeError,
>)
    requires
        schema@.valid(),
        kind < schema.kinds.len(),
    ensures
        final(reader)@.len() <= old(reader)@.len(),
        decode_element_spec(schema@, kind as nat, old(reader)@) == match r {
            Ok(n) => Ok((n@, final(reader)@)),
            Err(e) => Err(e),
        },
        r is Ok ==> r->Ok_0@.conforms(schema@) && r->Ok_0@.kind == kind,
    decreases old(reader)@.len(), 2int,
{
    let d = &schema.kinds[kind];
    let ghost dv = schema@.kinds[kind as int];
    assert(dv == d@);
    assert(dv.valid(schema@, kind as nat));
    match d.content {
        Content::Drawing => {
            let mut drawing = Drawing::default();
            match consume(reader, &mut drawing, Handler::Any) {
                Ok(()) => {},
                Err(e) => {
                    return Err(e);
                },
            }
            let n = drawing_to_node(kind, drawing);
            proof {
                assert forall|i: int| 0 <= i < n@.attributes.len() implies match #[trigger] n@.attributes[i] {
                    Some(v) => v.fits(dv.attributes[i].codec, schema@),
                    None => !dv.attributes[i].required,
                } by {
                    assert(dv.attributes[i].valid(schema@));
                }
                assert(n@.attributes_fit(schema@, true));
                assert(n@.slots_fit(schema@, true));
                assert(n@.children_fit(schema@));
            }
            Ok(n)
        },
        _ => {
            let mut node = blank_node(schema, kind);
            let open = match decode_attributes(schema, kind, reader, &mut node) {
                Ok(open) => open,
                Err(e) => {
                    return Err(e);
                },
            };
            if open {
                match d.content {
                    Content::Text => {
                        match decode_text(&d.tag, reader) {
                            Ok(text) => {
                                node.text = text;
                            },
                            Err(e) => {
                                return Err(e);
                            },
                        }
                    },
                    _ => {
                        match decode_children(schema, kind, reader, &mut node) {
                            Ok(()) => {},
                            Err(e) => {
                                return Err(e);
                            },
                        }
                    },
                }
            }
            finish(schema, node)
        },
    }
}

/// Reads the element of kind `kind` that the tokens hold.
pub fn decode_root(schema: &Schema, kind: usize, reader: &mut Reader<'_>) -> (r: Result<
    Node,
    DecodeError,
>)
    requires
        schema@.valid(),
        kind < schema.kinds.len(),
    ensures
        decode_root_spec(schema@, kind as nat, old(reader)@) == match r {
            Ok(n) => Ok(n@),
            Err(e) => Err(e),
        },
        r is Ok ==> r->Ok_0@.conforms(schema@) && r->Ok_0@.kind == kind,
{
    let d = &schema.kinds[kind];
    assert(schema@.kinds[kind as int] == d@);
    let ghost s0 = reader@;
    loop
        invariant
            schema@.valid(),
            kind < schema.kinds.len(),
            d == schema.kinds[kind as int],
            s0 == old(reader)@,
            decode_root_spec(schema@, kind as nat, s0) == decode_root_spec(
                schema@,
                kind as nat,
                reader@,
            ),
        decreases reader@.len(),
    {
        let token = match reader.next() {
            Some(token) => token,
            None => { return Err(DecodeError::MalformedStream) },
        };
        match token {
            Token::ElementStart { prefix, local } => {
                if d.tag.is(prefix, local) {
                    return decode_element(schema, kind, reader);
                } else {
                    match skip_element(reader) {
                        Ok(()) => {},
                        Err(e) => {
                            return Err(e);
                        },
                    }
                }
            },
            Token::Misc => {},
            _ => {
                return Err(DecodeError::MalformedStream);
            },
        }
    }
}

} // verus!
