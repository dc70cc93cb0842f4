//! What holds of reading and writing together.

use crate::decode::{
    alternative_index, attribute_index, blank, decode_attributes_spec, decode_children_spec,
    decode_element_spec, decode_text_spec, finish_spec, is_alternative,
    is_attribute, skip_spec, with_defaults,
};
use crate::encode::{
    attribute_tokens, children_tokens, element_tokens, has_children, slots_tokens,
};
use crate::error::DecodeError;
use crate::escape::{escaped, lemma_unescaped_escaped, unescaped};
use crate::node::{with_attribute, with_child, NodeView, ScalarView};
use crate::scalar::{lemma_scalar_round_trip, parse_scalar, scalar_text, symbol_index};
use crate::schema::{Cardinality, Content, NameView, SchemaView};
use crate::token::Tok;
use vstd::prelude::*;

verus! {

impl SchemaView {
    /// Whether the schema can be read back from what it writes: it is valid;
    /// in no kind two attributes have one name or two alternatives one tag;
    /// every alternative has the tag of its kind; and no table of symbols
    /// holds a text twice.
    pub open spec fn well_formed(self) -> bool {
        &&& self.valid()
        &&& forall|k: int| 0 <= k < self.kinds.len() ==> (#[trigger] self.kinds[k]).distinct()
        &&& forall|k: int, i: int, j: int|
            0 <= k < self.kinds.len() && 0 <= i < self.kinds[k].slots.len() && 0 <= j
                < self.kinds[k].slots[i].alternatives.len() ==> self.kinds[(
            #[trigger] self.kinds[k].slots[i].alternatives[j]).kind as int].tag
                == self.kinds[k].slots[i].alternatives[j].tag
        &&& forall|t: int|
            0 <= t < self.symbols.len() ==> (#[trigger] self.symbols[t]).len() <= usize::MAX
        &&& forall|t: int, a: int, b: int|
            0 <= t < self.symbols.len() && 0 <= a < b < self.symbols[t].len()
                ==> #[trigger] self.symbols[t][a] != #[trigger] self.symbols[t][b]
    }
}

impl NodeView {
    /// Whether all of the node is written: neither it nor anything below it
    /// is a drawing.
    pub open spec fn written_back(self, schema: SchemaView) -> bool
        decreases self,
    {
        &&& schema.kinds[self.kind as int].content != Content::Drawing
        &&& forall|i: int, j: int|
            0 <= i < self.slots.len() && 0 <= j < self.slots[i].len() ==> (#[trigger] self.slots[i][j]).written_back(
                schema,
            )
    }
}

/// The values of `acc`, but from place `from` on those of `values` where
/// there is one.
pub open spec fn merged(
    acc: Seq<Option<ScalarView>>,
    values: Seq<Option<ScalarView>>,
    from: int,
) -> Seq<Option<ScalarView>> {
    Seq::new(
        acc.len(),
        |i: int|
            if i >= from && values[i] is Some {
                values[i]
            } else {
                acc[i]
            },
    )
}

/// The tokens of the attributes from place `from` on, and then the end of the
/// start tag, are read as those values into the places of their attributes.
pub proof fn lemma_attributes_round_trip(
    schema: SchemaView,
    kind: nat,
    values: Seq<Option<ScalarView>>,
    from: int,
    acc: NodeView,
    tail: Seq<Tok>,
)
    requires
        schema.well_formed(),
        kind < schema.kinds.len(),
        values.len() == schema.kinds[kind as int].attributes.len(),
        acc.attributes.len() == values.len(),
        forall|i: int|
            0 <= i < values.len() ==> match #[trigger] values[i] {
                Some(v) => v.fits(schema.kinds[kind as int].attributes[i].codec, schema),
                None => true,
            },
        0 <= from <= values.len(),
        tail.len() > 0,
        tail[0] is Open || tail[0] is Empty,
    ensures
        decode_attributes_spec(
            schema,
            kind,
            attribute_tokens(schema.symbols, schema.kinds[kind as int].attributes, values, from)
                + tail,
            acc,
        ) == Ok::<_, DecodeError>(
            (
                NodeView { attributes: merged(acc.attributes, values, from), ..acc },
                tail[0] is Open,
                tail.skip(1),
            ),
        ),
    decreases values.len() - from,
{
    let d = schema.kinds[kind as int];
    let tokens = attribute_tokens(schema.symbols, d.attributes, values, from);
    if from == values.len() {
        assert(tokens + tail =~= tail);
        assert(merged(acc.attributes, values, from) =~= acc.attributes);
    } else {
        let rest = attribute_tokens(schema.symbols, d.attributes, values, from + 1);
        match values[from] {
            None => {
                lemma_attributes_round_trip(schema, kind, values, from + 1, acc, tail);
                assert(merged(acc.attributes, values, from) =~= merged(
                    acc.attributes,
                    values,
                    from + 1,
                ));
            },
            Some(v) => {
                let name = d.attributes[from].name;
                let text = scalar_text(schema.symbols, d.attributes[from].codec, v);
                let s = tokens + tail;
                assert(s[0] == Tok::Attr {
                    prefix: name.prefix,
                    local: name.local,
                    value: escaped(text),
                });
                assert(s.skip(1) =~= rest + tail);
                assert(d.distinct());
                assert(is_attribute(d.attributes, name, from));
                let c = choose|c: int| is_attribute(d.attributes, name, c);
                assert(c == from) by {
                    if c < from {
                        assert(d.attributes[c].name != d.attributes[from].name);
                    } else if from < c {
                        assert(d.attributes[from].name != name);
                    }
                }
                assert(attribute_index(d.attributes, name) == Some(from));
                lemma_unescaped_escaped(text);
                assert(d.attributes[from].valid(schema));
                lemma_scalar_round_trip(schema.symbols, d.attributes[from].codec, v);
                let next = with_attribute(acc, from, v);
                lemma_attributes_round_trip(schema, kind, values, from + 1, next, tail);
                assert(merged(next.attributes, values, from + 1) =~= merged(
                    acc.attributes,
                    values,
                    from,
                ));
            },
        }
    }
}

/// The start tag of the elements of kind `kind`.
pub open spec fn start_of(schema: SchemaView, kind: nat) -> Tok {
    Tok::Start {
        prefix: schema.kinds[kind as int].tag.prefix,
        local: schema.kinds[kind as int].tag.local,
    }
}

/// The closing tag of the elements of kind `kind`.
pub open spec fn close_of(schema: SchemaView, kind: nat) -> Tok {
    Tok::Close {
        prefix: schema.kinds[kind as int].tag.prefix,
        local: schema.kinds[kind as int].tag.local,
    }
}

/// The tokens of the children that are yet to come when child `j` of slot
/// `i` is next.
pub open spec fn pending_tokens(schema: SchemaView, slots: Seq<Seq<NodeView>>, i: int, j: int)
    -> Seq<Tok> {
    if 0 <= i < slots.len() {
        children_tokens(schema, slots[i].skip(j)) + slots_tokens(schema, slots.skip(i + 1))
    } else {
        Seq::empty()
    }
}

/// A child is read into the slot that it was written from: the one
/// alternative with the tag of its kind.
proof fn lemma_alternative_of_child(schema: SchemaView, n: NodeView, i: int, j: int) -> (a: int)
    requires
        schema.well_formed(),
        n.conforms(schema),
        0 <= i < n.slots.len(),
        0 <= j < n.slots[i].len(),
    ensures
        0 <= a < schema.kinds[n.kind as int].slots[i].alternatives.len(),
        schema.kinds[n.kind as int].slots[i].alternatives[a].kind == n.slots[i][j].kind,
        alternative_index(
            schema.kinds[n.kind as int].slots,
            schema.kinds[n.slots[i][j].kind as int].tag,
        ) == Some((i, a)),
{
    let d = schema.kinds[n.kind as int];
    let c = n.slots[i][j];
    let tag = schema.kinds[c.kind as int].tag;
    assert(d.slots[i].accepts(c.kind));
    let a = choose|a: int|
        0 <= a < d.slots[i].alternatives.len() && (#[trigger] d.slots[i].alternatives[a]).kind
            == c.kind;
    assert(schema.kinds[d.slots[i].alternatives[a].kind as int].tag == d.slots[i].alternatives[a].tag);
    assert(d.distinct());
    assert forall|x: int, y: int|
        0 <= x < d.slots.len() && 0 <= y < d.slots[x].alternatives.len() && (x != i || y
            != a) implies (#[trigger] d.slots[x].alternatives[y]).tag != tag by {
        assert(d.slots[x].alternatives[y].tag != d.slots[i].alternatives[a].tag);
    }
    assert(is_alternative(d.slots, tag, i, a));
    let p = choose|p: (int, int)| is_alternative(d.slots, tag, p.0, p.1);
    let here = (i, a);
    assert(is_alternative(d.slots, tag, here.0, here.1));
    assert(p == here) by {
        if p.0 != i || p.1 != a {
            assert(d.slots[p.0].alternatives[p.1].tag != tag);
        }
    }
    a
}

/// What is written of the children from child `j` of slot `i` on, and then
/// the closing tag, is read as those children, each into its slot and in its
/// order.
proof fn lemma_children_round_trip(
    schema: SchemaView,
    n: NodeView,
    i: int,
    j: int,
    acc: NodeView,
    rest: Seq<Tok>,
)
    requires
        schema.well_formed(),
        n.conforms(schema),
        n.written_back(schema),
        0 <= i <= n.slots.len(),
        i < n.slots.len() ==> 0 <= j <= n.slots[i].len(),
        acc.kind == n.kind,
        acc.attributes == n.attributes,
        acc.text == n.text,
        acc.slots.len() == n.slots.len(),
        forall|k: int| 0 <= k < i ==> #[trigger] acc.slots[k] == n.slots[k],
        i < n.slots.len() ==> acc.slots[i] == n.slots[i].take(j),
        forall|k: int| i < k < n.slots.len() ==> (#[trigger] acc.slots[k]).len() == 0,
    ensures
        decode_children_spec(
            schema,
            n.kind,
            pending_tokens(schema, n.slots, i, j) + seq![close_of(schema, n.kind)] + rest,
            acc,
        ) == Ok::<_, DecodeError>((n, rest)),
    decreases n, 0int, n.slots.len() - i, (if i < n.slots.len() {
            n.slots[i].len() - j
        } else {
            0
        }),
{
    let d = schema.kinds[n.kind as int];
    let close = close_of(schema, n.kind);
    let s = pending_tokens(schema, n.slots, i, j) + seq![close] + rest;
    if i == n.slots.len() {
        assert(s =~= seq![close] + rest);
        assert(s.skip(1) =~= rest);
        assert(acc.slots =~= n.slots);
    } else if j == n.slots[i].len() {
        assert(n.slots[i].skip(j) =~= Seq::<NodeView>::empty());
        assert(acc.slots[i] =~= n.slots[i]) by {
            assert(n.slots[i].take(j) =~= n.slots[i]);
        }
        if i + 1 < n.slots.len() {
            assert(n.slots.skip(i + 1)[0] == n.slots[i + 1]);
            assert(n.slots.skip(i + 1).skip(1) =~= n.slots.skip(i + 2));
            assert(n.slots[i + 1].skip(0) =~= n.slots[i + 1]);
            assert(n.slots[i + 1].take(0) =~= acc.slots[i + 1]);
        } else {
            assert(n.slots.skip(i + 1) =~= Seq::<Seq<NodeView>>::empty());
        }
        assert(pending_tokens(schema, n.slots, i, j) =~= pending_tokens(schema, n.slots, i + 1, 0));
        lemma_children_round_trip(schema, n, i + 1, 0, acc, rest);
    } else {
        let c = n.slots[i][j];
        let later = children_tokens(schema, n.slots[i].skip(j + 1)) + slots_tokens(
            schema,
            n.slots.skip(i + 1),
        );
        let behind = later + seq![close] + rest;
        let ec = element_tokens(schema, c);
        assert(n.slots[i].skip(j)[0] == c);
        assert(n.slots[i].skip(j).skip(1) =~= n.slots[i].skip(j + 1));
        lemma_round_trip(schema, c, behind);
        assert(s =~= ec + behind);
        assert(s[0] == ec[0]);
        assert(s.skip(1) =~= ec.skip(1) + behind);
        let a = lemma_alternative_of_child(schema, n, i, j);
        let next = with_child(acc, i, d.slots[i].cardinality, c);
        assert(next.slots[i] =~= n.slots[i].take(j + 1)) by {
            if d.slots[i].cardinality == Cardinality::Many {
                assert(n.slots[i].take(j).push(c) =~= n.slots[i].take(j + 1));
            } else {
                assert(n.slots[i].len() <= 1);
                assert(seq![c] =~= n.slots[i].take(j + 1));
            }
        }
        assert(behind =~= pending_tokens(schema, n.slots, i, j + 1) + seq![close] + rest);
        lemma_children_round_trip(schema, n, i, j + 1, next, rest);
    }
}

/// Reading what was written gives back what was written from: the tokens of
/// an element of the schema, behind its start tag, are read as that element,
/// and what stands behind them is left. This holds of every element that is
/// written whole, which is every one but a drawing and what holds one.
pub proof fn lemma_round_trip(schema: SchemaView, n: NodeView, rest: Seq<Tok>)
    requires
        schema.well_formed(),
        n.conforms(schema),
        n.written_back(schema),
    ensures
        element_tokens(schema, n).len() > 0,
        element_tokens(schema, n)[0] == start_of(schema, n.kind),
        decode_element_spec(schema, n.kind, element_tokens(schema, n).skip(1) + rest) == Ok::<
            _,
            DecodeError,
        >((n, rest)),
    decreases n, 1int, 0int, 0int,
{
    let d = schema.kinds[n.kind as int];
    let start = start_of(schema, n.kind);
    let close = close_of(schema, n.kind);
    let attrs = attribute_tokens(schema.symbols, d.attributes, n.attributes, 0);
    let tokens = element_tokens(schema, n);
    let empty = blank(schema, n.kind);
    assert(d.valid(schema, n.kind));
    assert(merged(empty.attributes, n.attributes, 0) =~= n.attributes);
    let read = NodeView { attributes: n.attributes, ..empty };
    if d.content == Content::Text {
        let text = if n.text.len() == 0 {
            Seq::<Tok>::empty()
        } else {
            seq![Tok::Text { text: escaped(n.text) }]
        };
        let tail = seq![Tok::Open] + text + seq![close] + rest;
        assert(tokens =~= seq![start] + attrs + seq![Tok::Open] + text + seq![close]);
        assert(tokens.skip(1) + rest =~= attrs + tail);
        lemma_attributes_round_trip(schema, n.kind, n.attributes, 0, empty, tail);
        let inside = tail.skip(1);
        assert(inside =~= text + seq![close] + rest);
        if n.text.len() == 0 {
            assert(inside.skip(1) =~= rest);
            assert(n.text =~= Seq::<char>::empty());
        } else {
            lemma_unescaped_escaped(n.text);
            assert(inside.skip(1) =~= seq![close] + rest);
            assert(inside.skip(1).skip(1) =~= rest);
            assert(Seq::<char>::empty() + n.text =~= n.text);
            assert(inside.skip(1)[0] == close);
            assert(decode_text_spec(d.tag, inside.skip(1), n.text) == Ok::<_, DecodeError>(
                (n.text, rest),
            ));
            assert(inside[0] == Tok::Text { text: escaped(n.text) });
        }
        assert(decode_text_spec(d.tag, inside, Seq::empty()) == Ok::<_, DecodeError>((n.text, rest)));
        let full = NodeView { text: n.text, ..read };
        assert(with_defaults(schema, full).slots =~= n.slots);
        assert(full.slots =~= n.slots);
        assert(finish_spec(schema, full) == Ok::<_, DecodeError>(n));
    } else if has_children(n) {
        let inner = slots_tokens(schema, n.slots);
        let tail = seq![Tok::Open] + inner + seq![close] + rest;
        assert(tokens =~= seq![start] + attrs + seq![Tok::Open] + inner + seq![close]);
        assert(tokens.skip(1) + rest =~= attrs + tail);
        lemma_attributes_round_trip(schema, n.kind, n.attributes, 0, empty, tail);
        let inside = tail.skip(1);
        assert(inside =~= inner + seq![close] + rest);
        assert(n.text =~= Seq::<char>::empty());
        assert(n.slots.skip(0) =~= n.slots);
        assert(n.slots[0].skip(0) =~= n.slots[0]);
        assert(n.slots.skip(0)[0] == n.slots[0]);
        assert(n.slots.skip(0).skip(1) =~= n.slots.skip(1));
        assert(inner =~= pending_tokens(schema, n.slots, 0, 0));
        assert(read.slots[0] =~= n.slots[0].take(0));
        lemma_children_round_trip(schema, n, 0, 0, read, rest);
        assert(with_defaults(schema, n).slots =~= n.slots) by {
            assert forall|i: int| 0 <= i < n.slots.len() implies with_defaults(schema, n).slots[i]
                == n.slots[i] by {
                if n.slots[i].len() == 0 {
                    assert(d.slots[i].cardinality != Cardinality::Default);
                    assert(with_defaults(schema, n).slots[i] =~= n.slots[i]);
                }
            }
        }
        assert(finish_spec(schema, n) == Ok::<_, DecodeError>(n));
    } else {
        let tail = seq![Tok::Empty] + rest;
        assert(tokens =~= seq![start] + attrs + seq![Tok::Empty]);
        assert(tokens.skip(1) + rest =~= attrs + tail);
        lemma_attributes_round_trip(schema, n.kind, n.attributes, 0, empty, tail);
        assert(tail.skip(1) =~= rest);
        assert(n.text =~= Seq::<char>::empty());
        assert forall|i: int| 0 <= i < n.slots.len() implies (#[trigger] n.slots[i]).len() == 0
            && d.slots[i].cardinality != Cardinality::Default && d.slots[i].cardinality
            != Cardinality::Required by {
            assert(!(n.slots[i].len() > 0));
        }
        assert(read.slots =~= n.slots) by {
            assert forall|i: int| 0 <= i < n.slots.len() implies read.slots[i] == n.slots[i] by {
                assert(read.slots[i] =~= n.slots[i]);
            }
        }
        assert(with_defaults(schema, read).slots =~= n.slots) by {
            assert forall|i: int| 0 <= i < n.slots.len() implies with_defaults(
                schema,
                read,
            ).slots[i] == n.slots[i] by {
                assert(n.slots[i].len() == 0);
                assert(with_defaults(schema, read).slots[i] =~= n.slots[i]);
            }
        }
        assert(finish_spec(schema, read) == Ok::<_, DecodeError>(n));
    }
}

/// What is read from the tokens of an element is written as the same tokens:
/// the children come out in the slots and in the order in which they went
/// in.
pub proof fn lemma_order_preserved(schema: SchemaView, n: NodeView, rest: Seq<Tok>)
    requires
        schema.well_formed(),
        n.conforms(schema),
        n.written_back(schema),
    ensures
        match decode_element_spec(schema, n.kind, element_tokens(schema, n).skip(1) + rest) {
            Ok((m, _)) => m.slots == n.slots && element_tokens(schema, m) == element_tokens(
                schema,
                n,
            ),
            Err(_) => false,
        },
{
    lemma_round_trip(schema, n, rest);
}

/// The whole text of an element is read as that element, whatever stands
/// behind it.
pub proof fn lemma_root_round_trip(schema: SchemaView, n: NodeView, rest: Seq<Tok>)
    requires
        schema.well_formed(),
        n.conforms(schema),
        n.written_back(schema),
    ensures
        crate::decode::decode_root_spec(schema, n.kind, element_tokens(schema, n) + rest) == Ok::<
            _,
            DecodeError,
        >(n),
{
    lemma_round_trip(schema, n, rest);
    let s = element_tokens(schema, n) + rest;
    assert(s[0] == start_of(schema, n.kind));
    assert(s.skip(1) =~= element_tokens(schema, n).skip(1) + rest);
}

/// Whether `t` is the token of an attribute, at place `from` or behind it,
/// that has a value: its name and its value as text, escaped.
pub open spec fn token_of_value(
    schema: SchemaView,
    kind: nat,
    values: Seq<Option<ScalarView>>,
    from: int,
    t: Tok,
) -> bool {
    exists|i: int|
        from <= i < values.len() && (#[trigger] values[i]) is Some && t == (Tok::Attr {
            prefix: schema.kinds[kind as int].attributes[i].name.prefix,
            local: schema.kinds[kind as int].attributes[i].name.local,
            value: escaped(
                scalar_text(
                    schema.symbols,
                    schema.kinds[kind as int].attributes[i].codec,
                    values[i]->0,
                ),
            ),
        })
}

/// The root element of a part, written with the declaration of the
/// namespace, is read as the element that it was written from: the
/// declaration is no attribute of the element, and is passed over.
pub proof fn lemma_declared_root_round_trip(schema: SchemaView, n: NodeView, rest: Seq<Tok>)
    requires
        schema.well_formed(),
        n.conforms(schema),
        n.written_back(schema),
        schema.kinds[n.kind as int].content == Content::Children,
        schema.kinds[n.kind as int].attributes.len() == 0,
    ensures
        crate::decode::decode_root_spec(
            schema,
            n.kind,
            crate::encode::root_tokens(
                schema.kinds[n.kind as int].tag,
                slots_tokens(schema, n.slots),
            ) + rest,
        ) == Ok::<_, DecodeError>(n),
{
    let d = schema.kinds[n.kind as int];
    let inner = slots_tokens(schema, n.slots);
    let close = close_of(schema, n.kind);
    let tokens = crate::encode::root_tokens(d.tag, inner);
    let s = tokens + rest;
    let declaration = Tok::Attr {
        prefix: "xmlns"@,
        local: "w"@,
        value: escaped(crate::schema::SCHEMA_MAIN@),
    };
    let empty = blank(schema, n.kind);
    assert(s[0] == start_of(schema, n.kind));
    let s1 = s.skip(1);
    assert(s1 =~= seq![declaration, Tok::Open] + inner + seq![close] + rest);
    assert(s1[0] == declaration);
    assert(attribute_index(d.attributes, NameView { prefix: "xmlns"@, local: "w"@ }) is None);
    let s2 = s1.skip(1);
    assert(s2[0] == Tok::Open);
    let s3 = s2.skip(1);
    assert(s3 =~= inner + seq![close] + rest);
    assert(decode_attributes_spec(schema, n.kind, s2, empty) == Ok::<_, DecodeError>(
        (empty, true, s3),
    ));
    assert(decode_attributes_spec(schema, n.kind, s1, empty) == Ok::<_, DecodeError>(
        (empty, true, s3),
    ));
    assert(empty.attributes =~= n.attributes);
    assert(n.text =~= Seq::<char>::empty());
    assert(n.slots.skip(0) =~= n.slots);
    if n.slots.len() > 0 {
        assert(n.slots[0].skip(0) =~= n.slots[0]);
        assert(n.slots.skip(0)[0] == n.slots[0]);
        assert(n.slots.skip(0).skip(1) =~= n.slots.skip(1));
        assert(empty.slots[0] =~= n.slots[0].take(0));
    }
    assert(inner =~= pending_tokens(schema, n.slots, 0, 0));
    lemma_children_round_trip(schema, n, 0, 0, empty, rest);
    assert(with_defaults(schema, n).slots =~= n.slots) by {
        assert forall|i: int| 0 <= i < n.slots.len() implies with_defaults(schema, n).slots[i]
            == n.slots[i] by {
            if n.slots[i].len() == 0 {
                assert(d.slots[i].cardinality != Cardinality::Default);
                assert(with_defaults(schema, n).slots[i] =~= n.slots[i]);
            }
        }
    }
    assert(finish_spec(schema, n) == Ok::<_, DecodeError>(n));
    assert(decode_element_spec(schema, n.kind, s1) == Ok::<_, DecodeError>((n, rest)));
}

/// No attribute without a value is written: where no attribute from place
/// `from` on has a value, no token is written for them; and whatever is
/// written for the attributes is the token of an attribute that has one.
pub proof fn lemma_attribute_elision(
    schema: SchemaView,
    kind: nat,
    values: Seq<Option<ScalarView>>,
    from: int,
)
    requires
        kind < schema.kinds.len(),
        values.len() == schema.kinds[kind as int].attributes.len(),
        0 <= from <= values.len(),
    ensures
        (forall|i: int| from <= i < values.len() ==> (#[trigger] values[i]) is None)
            ==> attribute_tokens(
            schema.symbols,
            schema.kinds[kind as int].attributes,
            values,
            from,
        ).len() == 0,
        forall|k: int|
            0 <= k < attribute_tokens(
                schema.symbols,
                schema.kinds[kind as int].attributes,
                values,
                from,
            ).len() ==> token_of_value(
                schema,
                kind,
                values,
                from,
                #[trigger] attribute_tokens(
                    schema.symbols,
                    schema.kinds[kind as int].attributes,
                    values,
                    from,
                )[k],
            ),
    decreases values.len() - from,
{
    let attributes = schema.kinds[kind as int].attributes;
    let tokens = attribute_tokens(schema.symbols, attributes, values, from);
    if from < values.len() {
        lemma_attribute_elision(schema, kind, values, from + 1);
        let rest = attribute_tokens(schema.symbols, attributes, values, from + 1);
        assert forall|k: int| 0 <= k < tokens.len() implies token_of_value(
            schema,
            kind,
            values,
            from,
            #[trigger] tokens[k],
        ) by {
            if values[from] is Some && k == 0 {
                assert(values[from] is Some);
            } else {
                let k2 = if values[from] is Some {
                    k - 1
                } else {
                    k
                };
                assert(tokens[k] == rest[k2]);
                assert(token_of_value(schema, kind, values, from + 1, rest[k2]));
                let i = choose|i: int|
                    from + 1 <= i < values.len() && (#[trigger] values[i]) is Some && rest[k2] == (
                    Tok::Attr {
                        prefix: attributes[i].name.prefix,
                        local: attributes[i].name.local,
                        value: escaped(
                            scalar_text(schema.symbols, attributes[i].codec, values[i]->0),
                        ),
                    });
                assert(values[i] is Some);
            }
        }
    }
}

/// An attribute that the kind does not know changes nothing: with it in
/// front, the attributes are read as without it.
pub proof fn lemma_unknown_attribute_ignored(
    schema: SchemaView,
    kind: nat,
    prefix: Seq<char>,
    local: Seq<char>,
    value: Seq<char>,
    s: Seq<Tok>,
    node: NodeView,
)
    requires
        attribute_index(schema.kinds[kind as int].attributes, NameView { prefix, local }) is None,
    ensures
        decode_attributes_spec(schema, kind, seq![Tok::Attr { prefix, local, value }] + s, node)
            == decode_attributes_spec(schema, kind, s, node),
{
    let t = seq![Tok::Attr { prefix, local, value }] + s;
    assert(t[0] == Tok::Attr { prefix, local, value });
    assert(t.skip(1) =~= s);
}

/// What is passed over does not depend on what stands behind it.
pub proof fn lemma_skip_extends(sub: Seq<Tok>, depth: nat, rest: Seq<Tok>)
    requires
        skip_spec(sub, depth) == Some(Seq::<Tok>::empty()),
    ensures
        skip_spec(sub + rest, depth) == Some(rest),
    decreases sub.len(),
{
    let s = sub + rest;
    assert(sub.len() > 0);
    assert(s[0] == sub[0]);
    assert(s.skip(1) =~= sub.skip(1) + rest);
    let ends = match sub[0] {
        Tok::Empty => depth == 0,
        Tok::Close { .. } => depth == 1,
        _ => false,
    };
    if ends {
        assert(sub.skip(1) =~= Seq::<Tok>::empty());
        assert(s.skip(1) =~= rest);
    } else {
        match sub[0] {
            Tok::Invalid => {},
            Tok::Empty => {
                lemma_skip_extends(sub.skip(1), depth, rest);
            },
            Tok::Open => {
                lemma_skip_extends(sub.skip(1), depth + 1, rest);
            },
            Tok::Close { .. } => {
                if depth > 1 {
                    lemma_skip_extends(sub.skip(1), (depth - 1) as nat, rest);
                }
            },
            _ => {
                lemma_skip_extends(sub.skip(1), depth, rest);
            },
        }
    }
}

/// A child element that no slot of the kind accepts changes nothing: with
/// it in front, with all that it holds, the children are read as without it.
/// `inside` is what stands behind its start tag, up to its end.
pub proof fn lemma_unknown_child_ignored(
    schema: SchemaView,
    kind: nat,
    prefix: Seq<char>,
    local: Seq<char>,
    inside: Seq<Tok>,
    s: Seq<Tok>,
    node: NodeView,
)
    requires
        alternative_index(schema.kinds[kind as int].slots, NameView { prefix, local }) is None,
        skip_spec(inside, 0) == Some(Seq::<Tok>::empty()),
    ensures
        decode_children_spec(schema, kind, seq![Tok::Start { prefix, local }] + inside + s, node)
            == decode_children_spec(schema, kind, s, node),
{
    let t = seq![Tok::Start { prefix, local }] + inside + s;
    assert(t[0] == Tok::Start { prefix, local });
    assert(t.skip(1) =~= inside + s);
    lemma_skip_extends(inside, 0, s);
}

/// An attribute that its kind does not know, put in front of the attributes
/// of an element that was written, changes nothing of what is read.
pub proof fn lemma_injected_attribute(
    schema: SchemaView,
    n: NodeView,
    prefix: Seq<char>,
    local: Seq<char>,
    value: Seq<char>,
    rest: Seq<Tok>,
)
    requires
        schema.well_formed(),
        n.conforms(schema),
        n.written_back(schema),
        attribute_index(schema.kinds[n.kind as int].attributes, NameView { prefix, local }) is None,
    ensures
        decode_element_spec(
            schema,
            n.kind,
            seq![Tok::Attr { prefix, local, value }] + element_tokens(schema, n).skip(1) + rest,
        ) == Ok::<_, DecodeError>((n, rest)),
{
    lemma_round_trip(schema, n, rest);
    let plain = element_tokens(schema, n).skip(1) + rest;
    let noisy = seq![Tok::Attr { prefix, local, value }] + element_tokens(schema, n).skip(1) + rest;
    assert(noisy =~= seq![Tok::Attr { prefix, local, value }] + plain);
    lemma_unknown_attribute_ignored(
        schema,
        n.kind,
        prefix,
        local,
        value,
        plain,
        blank(schema, n.kind),
    );
}

/// A child element that no slot accepts, put in front of the children of an
/// element that was written with children, changes nothing of what is read.
/// `inside` is what stands behind the start tag of that child, up to its end.
pub proof fn lemma_injected_child(
    schema: SchemaView,
    n: NodeView,
    prefix: Seq<char>,
    local: Seq<char>,
    inside: Seq<Tok>,
    rest: Seq<Tok>,
)
    requires
        schema.well_formed(),
        n.conforms(schema),
        n.written_back(schema),
        schema.kinds[n.kind as int].content == Content::Children,
        has_children(n),
        alternative_index(schema.kinds[n.kind as int].slots, NameView { prefix, local }) is None,
        skip_spec(inside, 0) == Some(Seq::<Tok>::empty()),
    ensures
        decode_element_spec(
            schema,
            n.kind,
            attribute_tokens(
                schema.symbols,
                schema.kinds[n.kind as int].attributes,
                n.attributes,
                0,
            ) + seq![Tok::Open, Tok::Start { prefix, local }] + inside + slots_tokens(
                schema,
                n.slots,
            ) + seq![close_of(schema, n.kind)] + rest,
        ) == Ok::<_, DecodeError>((n, rest)),
{
    let d = schema.kinds[n.kind as int];
    let attrs = attribute_tokens(schema.symbols, d.attributes, n.attributes, 0);
    let inner = slots_tokens(schema, n.slots);
    let close = close_of(schema, n.kind);
    let start = start_of(schema, n.kind);
    let empty = blank(schema, n.kind);
    let read = NodeView { attributes: n.attributes, ..empty };
    lemma_round_trip(schema, n, rest);
    // as it was written
    let plain_tail = seq![Tok::Open] + inner + seq![close] + rest;
    assert(element_tokens(schema, n) =~= seq![start] + attrs + seq![Tok::Open] + inner + seq![
        close,
    ]);
    assert(element_tokens(schema, n).skip(1) + rest =~= attrs + plain_tail);
    assert(merged(empty.attributes, n.attributes, 0) =~= n.attributes);
    lemma_attributes_round_trip(schema, n.kind, n.attributes, 0, empty, plain_tail);
    assert(plain_tail.skip(1) =~= inner + seq![close] + rest);
    // with the child in front
    let after = inner + seq![close] + rest;
    let noisy_tail = seq![Tok::Open, Tok::Start { prefix, local }] + inside + after;
    let noisy = attrs + seq![Tok::Open, Tok::Start { prefix, local }] + inside + inner + seq![
        close,
    ] + rest;
    assert(noisy =~= attrs + noisy_tail);
    lemma_attributes_round_trip(schema, n.kind, n.attributes, 0, empty, noisy_tail);
    assert(noisy_tail.skip(1) =~= seq![Tok::Start { prefix, local }] + inside + after);
    lemma_unknown_child_ignored(schema, n.kind, prefix, local, inside, after, read);
}

/// Whether a token declares the namespace of the main markup.
pub open spec fn is_declaration(t: Tok) -> bool {
    match t {
        Tok::Attr { prefix, local, .. } => prefix == "xmlns"@ && local == "w"@,
        _ => false,
    }
}

/// Whether none of the tokens declares the namespace.
pub open spec fn declaration_free(tokens: Seq<Tok>) -> bool {
    forall|k: int| 0 <= k < tokens.len() ==> !is_declaration(#[trigger] tokens[k])
}

impl SchemaView {
    /// Whether no attribute of any kind has the name under which the
    /// namespace is declared.
    pub open spec fn declares_nothing(self) -> bool {
        forall|k: int, i: int|
            0 <= k < self.kinds.len() && 0 <= i < self.kinds[k].attributes.len() ==> (
            #[trigger] self.kinds[k].attributes[i]).name != (NameView {
                prefix: "xmlns"@,
                local: "w"@,
            })
    }
}

/// Neither of two runs of tokens declares the namespace, so their sequence
/// does not.
pub proof fn lemma_declaration_free_concat(a: Seq<Tok>, b: Seq<Tok>)
    requires
        declaration_free(a),
        declaration_free(b),
    ensures
        declaration_free(a + b),
{
    assert forall|k: int| 0 <= k < (a + b).len() implies !is_declaration(#[trigger] (a + b)[k]) by {
        if k < a.len() {
            assert((a + b)[k] == a[k]);
        } else {
            assert((a + b)[k] == b[k - a.len()]);
        }
    }
}

/// What is written of some children does not declare the namespace.
pub proof fn lemma_children_declare_nothing(schema: SchemaView, children: Seq<NodeView>)
    requires
        schema.declares_nothing(),
        forall|j: int| 0 <= j < children.len() ==> (#[trigger] children[j]).conforms(schema),
    ensures
        declaration_free(children_tokens(schema, children)),
    decreases children, 0int,
{
    if children.len() > 0 {
        lemma_element_declares_nothing(schema, children[0]);
        assert forall|j: int| 0 <= j < children.skip(1).len() implies (#[trigger] children.skip(
            1,
        )[j]).conforms(schema) by {
            assert(children.skip(1)[j] == children[j + 1]);
        }
        lemma_children_declare_nothing(schema, children.skip(1));
        lemma_declaration_free_concat(
            element_tokens(schema, children[0]),
            children_tokens(schema, children.skip(1)),
        );
    }
}

/// What is written of the children of all slots does not declare the
/// namespace.
pub proof fn lemma_slots_declare_nothing(schema: SchemaView, slots: Seq<Seq<NodeView>>)
    requires
        schema.declares_nothing(),
        forall|i: int, j: int|
            0 <= i < slots.len() && 0 <= j < slots[i].len() ==> (#[trigger] slots[i][j]).conforms(
                schema,
            ),
    ensures
        declaration_free(slots_tokens(schema, slots)),
    decreases slots, 1int,
{
    if slots.len() > 0 {
        lemma_children_declare_nothing(schema, slots[0]);
        assert forall|i: int, j: int|
            0 <= i < slots.skip(1).len() && 0 <= j < slots.skip(1)[i].len() implies (
        #[trigger] slots.skip(1)[i][j]).conforms(schema) by {
            assert(slots.skip(1)[i] == slots[i + 1]);
            assert(slots[i + 1][j].conforms(schema));
        }
        lemma_slots_declare_nothing(schema, slots.skip(1));
        lemma_declaration_free_concat(
            children_tokens(schema, slots[0]),
            slots_tokens(schema, slots.skip(1)),
        );
    }
}

/// Nothing that is written of an element declares the namespace: no element
/// below the root declares it again.
pub proof fn lemma_element_declares_nothing(schema: SchemaView, n: NodeView)
    requires
        schema.declares_nothing(),
        n.conforms(schema),
    ensures
        declaration_free(element_tokens(schema, n)),
    decreases n, 2int,
{
    let d = schema.kinds[n.kind as int];
    let start = seq![start_of(schema, n.kind)];
    let close = seq![close_of(schema, n.kind)];
    let attrs = attribute_tokens(schema.symbols, d.attributes, n.attributes, 0);
    lemma_attribute_elision(schema, n.kind, n.attributes, 0);
    assert forall|k: int| 0 <= k < attrs.len() implies !is_declaration(#[trigger] attrs[k]) by {
        assert(token_of_value(schema, n.kind, n.attributes, 0, attrs[k]));
        let i = choose|i: int|
            0 <= i < n.attributes.len() && (#[trigger] n.attributes[i]) is Some && attrs[k] == (
            Tok::Attr {
                prefix: d.attributes[i].name.prefix,
                local: d.attributes[i].name.local,
                value: escaped(
                    scalar_text(schema.symbols, d.attributes[i].codec, n.attributes[i]->0),
                ),
            });
        assert(d.attributes[i].name != (NameView { prefix: "xmlns"@, local: "w"@ }));
    }
    lemma_declaration_free_concat(start, attrs);
    if d.content == Content::Drawing {
    } else if d.content == Content::Text {
        let text = if n.text.len() == 0 {
            Seq::<Tok>::empty()
        } else {
            seq![Tok::Text { text: escaped(n.text) }]
        };
        lemma_declaration_free_concat(start + attrs, seq![Tok::Open]);
        lemma_declaration_free_concat(start + attrs + seq![Tok::Open], text);
        lemma_declaration_free_concat(start + attrs + seq![Tok::Open] + text, close);
    } else if has_children(n) {
        lemma_slots_declare_nothing(schema, n.slots);
        let inner = slots_tokens(schema, n.slots);
        lemma_declaration_free_concat(start + attrs, seq![Tok::Open]);
        lemma_declaration_free_concat(start + attrs + seq![Tok::Open], inner);
        lemma_declaration_free_concat(start + attrs + seq![Tok::Open] + inner, close);
    } else {
        lemma_declaration_free_concat(start + attrs, seq![Tok::Empty]);
    }
}

/// What is written of the root element of a part declares the namespace
/// exactly once: in the one attribute of its start tag, and nowhere below.
pub proof fn lemma_root_declares_once(schema: SchemaView, n: NodeView)
    requires
        schema.declares_nothing(),
        n.conforms(schema),
    ensures
        forall|k: int|
            0 <= k < crate::encode::root_tokens(
                schema.kinds[n.kind as int].tag,
                slots_tokens(schema, n.slots),
            ).len() ==> (is_declaration(
                #[trigger] crate::encode::root_tokens(
                    schema.kinds[n.kind as int].tag,
                    slots_tokens(schema, n.slots),
                )[k],
            ) <==> k == 1),
{
    lemma_slots_declare_nothing(schema, n.slots);
    lemma_declared_once(schema.kinds[n.kind as int].tag, slots_tokens(schema, n.slots));
}

/// The root element of a part declares the namespace exactly once: in the
/// one attribute of its start tag, and nowhere in `inner`, where `inner`
/// does not declare it.
pub proof fn lemma_declared_once(tag: NameView, inner: Seq<Tok>)
    requires
        declaration_free(inner),
    ensures
        forall|k: int|
            0 <= k < crate::encode::root_tokens(tag, inner).len() ==> (is_declaration(
                #[trigger] crate::encode::root_tokens(tag, inner)[k],
            ) <==> k == 1),
{
    let tokens = crate::encode::root_tokens(tag, inner);
    assert forall|k: int| 0 <= k < tokens.len() implies (is_declaration(#[trigger] tokens[k])
        <==> k == 1) by {
        if 3 <= k < 3 + inner.len() {
            assert(tokens[k] == inner[k - 3]);
        }
    }
}

/// A text that is not in the table of a symbol is the value of none.
pub proof fn lemma_symbol_outside(table: Seq<Seq<char>>, s: Seq<char>)
    requires
        forall|i: int| 0 <= i < table.len() ==> #[trigger] table[i] != s,
    ensures
        symbol_index(table, s) is None,
{
}

/// A known attribute whose text is outside the domain of its codec violates
/// the schema; so does, for an attribute that holds a symbol, every text
/// that is not in the table.
pub proof fn lemma_outside_domain_fails(
    schema: SchemaView,
    kind: nat,
    i: int,
    value: Seq<char>,
    text: Seq<char>,
    s: Seq<Tok>,
    node: NodeView,
)
    requires
        attribute_index(
            schema.kinds[kind as int].attributes,
            schema.kinds[kind as int].attributes[i].name,
        ) == Some(i),
        unescaped(value) == Some(text),
        parse_scalar(schema.symbols, schema.kinds[kind as int].attributes[i].codec, text) is None,
    ensures
        decode_attributes_spec(
            schema,
            kind,
            seq![
                Tok::Attr {
                    prefix: schema.kinds[kind as int].attributes[i].name.prefix,
                    local: schema.kinds[kind as int].attributes[i].name.local,
                    value,
                },
            ] + s,
            node,
        ) == Err::<(NodeView, bool, Seq<Tok>), _>(DecodeError::SchemaViolation),
{
    let name = schema.kinds[kind as int].attributes[i].name;
    let t = seq![Tok::Attr { prefix: name.prefix, local: name.local, value }] + s;
    assert(t[0] == Tok::Attr { prefix: name.prefix, local: name.local, value });
    assert((NameView { prefix: name.prefix, local: name.local }) == name);
}

} // verus!
