//! Writing elements.

use crate::error::WriteError;
use crate::escape::escaped;
use crate::node::{Node, NodeView, ScalarView};
use crate::scalar::{render, scalar_text};
use crate::schema::{
    AttributeView, Content, Descriptor, Name, NameView, Schema, SchemaView, SCHEMA_MAIN,
};
use crate::token::Tok;
use crate::writer::{
    lemma_tokens_text_concat, lemma_tokens_text_one, qualified_name, token_text, tokens_text,
    write_attribute, write_element_end_close, write_element_end_empty, write_element_end_open,
    write_element_start, write_text, written, Sink,
};
use vstd::prelude::*;
use vstd::string::StringExecFns;

verus! {

/// The tokens of the attributes from place `from` on: one for each that has a
/// value, in the order of the description, the value escaped.
pub open spec fn attribute_tokens(
    symbols: Seq<Seq<Seq<char>>>,
    attributes: Seq<AttributeView>,
    values: Seq<Option<ScalarView>>,
    from: int,
) -> Seq<Tok>
    decreases attributes.len() - from,
{
    if from < 0 || from >= attributes.len() {
        Seq::empty()
    } else {
        let rest = attribute_tokens(symbols, attributes, values, from + 1);
        match values[from] {
            Some(v) => seq![
                Tok::Attr {
                    prefix: attributes[from].name.prefix,
                    local: attributes[from].name.local,
                    value: escaped(scalar_text(symbols, attributes[from].codec, v)),
                },
            ] + rest,
            None => rest,
        }
    }
}

/// Whether a node has a child.
pub open spec fn has_children(n: NodeView) -> bool {
    exists|i: int| 0 <= i < n.slots.len() && (#[trigger] n.slots[i]).len() > 0
}

/// The tokens of the children of one slot, in their order.
pub open spec fn children_tokens(schema: SchemaView, children: Seq<NodeView>) -> Seq<Tok>
    decreases children, 0int,
{
    if children.len() == 0 {
        Seq::empty()
    } else {
        element_tokens(schema, children[0]) + children_tokens(schema, children.skip(1))
    }
}

/// The tokens of the children of all slots, slot by slot in the order of the
/// description.
pub open spec fn slots_tokens(schema: SchemaView, slots: Seq<Seq<NodeView>>) -> Seq<Tok>
    decreases slots, 1int,
{
    if slots.len() == 0 {
        Seq::empty()
    } else {
        children_tokens(schema, slots[0]) + slots_tokens(schema, slots.skip(1))
    }
}

/// The tokens that an element is written as: its start tag with the
/// attributes that have a value; then `/>` where it holds children and has
/// none; else its content between `>` and its closing tag. A drawing is
/// written as nothing.
pub open spec fn element_tokens(schema: SchemaView, n: NodeView) -> Seq<Tok>
    decreases n, 2int,
{
    let d = schema.kinds[n.kind as int];
    let start = seq![Tok::Start { prefix: d.tag.prefix, local: d.tag.local }] + attribute_tokens(
        schema.symbols,
        d.attributes,
        n.attributes,
        0,
    );
    let close = seq![Tok::Close { prefix: d.tag.prefix, local: d.tag.local }];
    match d.content {
        Content::Drawing => Seq::empty(),
        Content::Text => start + seq![Tok::Open] + (if n.text.len() == 0 {
            Seq::empty()
        } else {
            seq![Tok::Text { text: escaped(n.text) }]
        }) + close,
        Content::Children => if has_children(n) {
            start + seq![Tok::Open] + slots_tokens(schema, n.slots) + close
        } else {
            start + seq![Tok::Empty]
        },
    }
}

/// The tokens of the root element of a part, named `tag`: its start tag with
/// the declaration of the namespace as its one attribute, then `inner`
/// between `>` and the closing tag.
pub open spec fn root_tokens(tag: NameView, inner: Seq<Tok>) -> Seq<Tok> {
    seq![
        Tok::Start { prefix: tag.prefix, local: tag.local },
        Tok::Attr { prefix: "xmlns"@, local: "w"@, value: escaped(SCHEMA_MAIN@) },
        Tok::Open,
    ] + inner + seq![Tok::Close { prefix: tag.prefix, local: tag.local }]
}

/// Writes the start tag of the root element of a part, with the declaration
/// of the namespace, and ends it with `>`.
fn write_root_start(sink: &mut Sink, tag: &Name) -> (r: Result<(), WriteError>)
    ensures
        r is Ok,
        wrote(
            *old(sink),
            *final(sink),
            seq![
                Tok::Start { prefix: tag@.prefix, local: tag@.local },
                Tok::Attr { prefix: "xmlns"@, local: "w"@, value: escaped(SCHEMA_MAIN@) },
                Tok::Open,
            ],
        ),
{
    let ghost w0 = written(*sink);
    let ghost start = Tok::Start { prefix: tag@.prefix, local: tag@.local };
    let ghost ns = Tok::Attr { prefix: "xmlns"@, local: "w"@, value: escaped(SCHEMA_MAIN@) };
    let name = qualified_name(&tag.prefix, &tag.local);
    match write_element_start(sink, name.as_str()) {
        Ok(()) => {},
        Err(_) => {
            return Err(WriteError);
        },
    }
    let ghost w1 = written(*sink);
    let key = qualified_name(&String::from_str("xmlns"), &String::from_str("w"));
    match write_attribute(sink, key.as_str(), SCHEMA_MAIN) {
        Ok(()) => {},
        Err(_) => {
            return Err(WriteError);
        },
    }
    let ghost w2 = written(*sink);
    match write_element_end_open(sink) {
        Ok(()) => {},
        Err(_) => {
            return Err(WriteError);
        },
    }
    proof {
        let w3 = written(*sink);
        lemma_tokens_text_one(start);
        assert(w1 =~= w0 + tokens_text(seq![start]));
        assert(w2 =~= w1 + token_text(ns));
        lemma_wrote_token(w0, w1, w2, seq![start], ns);
        lemma_wrote_token(w0, w2, w3, seq![start].push(ns), Tok::Open);
        assert(seq![start].push(ns).push(Tok::Open) =~= seq![start, ns, Tok::Open]);
    }
    Ok(())
}

/// Writes the closing tag of the root element of a part.
fn write_root_end(sink: &mut Sink, tag: &Name) -> (r: Result<(), WriteError>)
    ensures
        r is Ok,
        written(*final(sink)) == written(*old(sink)) + token_text(
            Tok::Close { prefix: tag@.prefix, local: tag@.local },
        ),
{
    let name = qualified_name(&tag.prefix, &tag.local);
    match write_element_end_close(sink, name.as_str()) {
        Ok(()) => {
            assert(written(*sink) =~= written(*old(sink)) + token_text(
                Tok::Close { prefix: tag@.prefix, local: tag@.local },
            ));
            Ok(())
        },
        Err(_) => Err(WriteError),
    }
}

/// Having written the start of a root element, then `inner`, then its
/// closing tag is having written the root element.
proof fn lemma_root_written(
    w0: Seq<char>,
    w1: Seq<char>,
    w2: Seq<char>,
    w3: Seq<char>,
    tag: NameView,
    inner: Seq<Tok>,
)
    requires
        w1 == w0 + tokens_text(
            seq![
                Tok::Start { prefix: tag.prefix, local: tag.local },
                Tok::Attr { prefix: "xmlns"@, local: "w"@, value: escaped(SCHEMA_MAIN@) },
                Tok::Open,
            ],
        ),
        w2 == w1 + tokens_text(inner),
        w3 == w2 + token_text(Tok::Close { prefix: tag.prefix, local: tag.local }),
    ensures
        w3 == w0 + tokens_text(root_tokens(tag, inner)),
{
    let head = seq![
        Tok::Start { prefix: tag.prefix, local: tag.local },
        Tok::Attr { prefix: "xmlns"@, local: "w"@, value: escaped(SCHEMA_MAIN@) },
        Tok::Open,
    ];
    let close = Tok::Close { prefix: tag.prefix, local: tag.local };
    lemma_wrote_tokens(w0, w1, w2, head, inner);
    lemma_wrote_token(w0, w2, w3, head + inner, close);
    assert((head + inner).push(close) =~= root_tokens(tag, inner));
}

/// The values of some nodes, in order.
pub open spec fn nodes_view(nodes: Seq<Node>) -> Seq<NodeView> {
    Seq::new(nodes.len(), |j: int| nodes[j]@)
}

/// What was written before, and then the text of `tokens`.
pub open spec fn wrote(before: Sink, after: Sink, tokens: Seq<Tok>) -> bool {
    written(after) == written(before) + tokens_text(tokens)
}

/// Having written `done` and then the token `t` is having written both.
proof fn lemma_wrote_token(w0: Seq<char>, w1: Seq<char>, w2: Seq<char>, done: Seq<Tok>, t: Tok)
    requires
        w1 == w0 + tokens_text(done),
        w2 == w1 + token_text(t),
    ensures
        w2 == w0 + tokens_text(done.push(t)),
{
    assert(done.push(t).drop_last() =~= done);
    assert(w0 + tokens_text(done) + token_text(t) =~= w0 + (tokens_text(done) + token_text(t)));
}

/// Having written `done` and then the tokens `more` is having written both.
proof fn lemma_wrote_tokens(
    w0: Seq<char>,
    w1: Seq<char>,
    w2: Seq<char>,
    done: Seq<Tok>,
    more: Seq<Tok>,
)
    requires
        w1 == w0 + tokens_text(done),
        w2 == w1 + tokens_text(more),
    ensures
        w2 == w0 + tokens_text(done + more),
{
    lemma_tokens_text_concat(done, more);
    assert(w0 + tokens_text(done) + tokens_text(more) =~= w0 + (tokens_text(done) + tokens_text(
        more,
    )));
}

/// Writes the attributes of `node` that have a value.
fn encode_attributes(schema: &Schema, d: &Descriptor, node: &Node, sink: &mut Sink) -> (r: Result<
    (),
    WriteError,
>)
    requires
        node@.conforms(schema@),
        node.kind < schema.kinds.len(),
        d == schema.kinds[node.kind as int],
    ensures
        r is Ok,
        wrote(
            *old(sink),
            *final(sink),
            attribute_tokens(schema@.symbols, d@.attributes, node@.attributes, 0),
        ),
{
    let ghost w0 = written(*sink);
    let ghost all = attribute_tokens(schema@.symbols, d@.attributes, node@.attributes, 0);
    let ghost done = Seq::<Tok>::empty();
    assert(schema@.kinds[node@.kind as int] == d@);
    assert(w0 + tokens_text(done) =~= w0);
    assert(done + all =~= all);
    let mut i: usize = 0;
    while i < d.attributes.len()
        invariant
            i <= d.attributes.len(),
            node@.conforms(schema@),
            schema@.kinds[node@.kind as int] == d@,
            node.attributes.len() == d.attributes.len(),
            w0 == written(*old(sink)),
            written(*sink) == w0 + tokens_text(done),
            all == attribute_tokens(schema@.symbols, d@.attributes, node@.attributes, 0),
            all == done + attribute_tokens(
                schema@.symbols,
                d@.attributes,
                node@.attributes,
                i as int,
            ),
        decreases d.attributes.len() - i,
    {
        let ghost rest = attribute_tokens(
            schema@.symbols,
            d@.attributes,
            node@.attributes,
            i + 1,
        );
        match &node.attributes[i] {
            Some(v) => {
                assert(node@.attributes[i as int] == Some(v@));
                let text = render(schema, d.attributes[i].codec, v);
                let key = qualified_name(&d.attributes[i].name.prefix, &d.attributes[i].name.local);
                let ghost w1 = written(*sink);
                match write_attribute(sink, key.as_str(), text.as_str()) {
                    Ok(()) => {},
                    Err(_) => {
                        return Err(WriteError);
                    },
                }
                proof {
                    let t = Tok::Attr {
                        prefix: d@.attributes[i as int].name.prefix,
                        local: d@.attributes[i as int].name.local,
                        value: escaped(text@),
                    };
                    assert(written(*sink) =~= w1 + token_text(t));
                    lemma_wrote_token(w0, w1, written(*sink), done, t);
                    assert(done.push(t) + rest =~= done + (seq![t] + rest));
                    done = done.push(t);
                }
            },
            None => {},
        }
        i = i + 1;
    }
    proof {
        assert(done + Seq::<Tok>::empty() =~= done);
    }
    Ok(())
}

/// Writes the children of one slot, in their order.
fn encode_children(schema: &Schema, children: &Vec<Node>, sink: &mut Sink) -> (r: Result<
    (),
    WriteError,
>)
    requires
        schema@.valid(),
        forall|j: int| 0 <= j < children.len() ==> (#[trigger] children@[j])@.conforms(schema@),
    ensures
        r is Ok,
        wrote(*old(sink), *final(sink), children_tokens(schema@, nodes_view(children@))),
    decreases children, 0int,
{
    let ghost w0 = written(*sink);
    let ghost nodes = nodes_view(children@);
    let ghost all = children_tokens(schema@, nodes);
    let ghost done = Seq::<Tok>::empty();
    assert(w0 + tokens_text(done) =~= w0);
    assert(done + all =~= all);
    assert(nodes.skip(0) =~= nodes);
    let mut j: usize = 0;
    while j < children.len()
        invariant
            j <= children.len(),
            schema@.valid(),
            forall|j: int| 0 <= j < children.len() ==> (#[trigger] children@[j])@.conforms(schema@),
            nodes == nodes_view(children@),
            w0 == written(*old(sink)),
            written(*sink) == w0 + tokens_text(done),
            all == children_tokens(schema@, nodes),
            all == done + children_tokens(schema@, nodes.skip(j as int)),
        decreases children.len() - j,
    {
        let ghost w1 = written(*sink);
        match encode_element(schema, &children[j], sink) {
            Ok(()) => {},
            Err(e) => {
                return Err(e);
            },
        }
        proof {
            let more = element_tokens(schema@, children@[j as int]@);
            assert(nodes.skip(j as int)[0] == children@[j as int]@);
            assert(nodes.skip(j as int).skip(1) =~= nodes.skip(j + 1));
            lemma_wrote_tokens(w0, w1, written(*sink), done, more);
            assert(done + more + children_tokens(schema@, nodes.skip(j + 1)) =~= done + (more
                + children_tokens(schema@, nodes.skip(j + 1))));
            done = done + more;
        }
        j = j + 1;
    }
    proof {
        assert(done + Seq::<Tok>::empty() =~= done);
    }
    Ok(())
}

/// Writes the children of every slot, slot by slot.
fn encode_slots(schema: &Schema, node: &Node, sink: &mut Sink) -> (r: Result<(), WriteError>)
    requires
        schema@.valid(),
        node@.conforms(schema@),
    ensures
        r is Ok,
        wrote(*old(sink), *final(sink), slots_tokens(schema@, node@.slots)),
    decreases node, 1int,
{
    let ghost w0 = written(*sink);
    let ghost slots = node@.slots;
    let ghost all = slots_tokens(schema@, slots);
    let ghost done = Seq::<Tok>::empty();
    assert(w0 + tokens_text(done) =~= w0);
    assert(done + all =~= all);
    assert(slots.skip(0) =~= slots);
    let mut i: usize = 0;
    while i < node.slots.len()
        invariant
            i <= node.slots.len(),
            schema@.valid(),
            node@.conforms(schema@),
            slots == node@.slots,
            w0 == written(*old(sink)),
            written(*sink) == w0 + tokens_text(done),
            all == slots_tokens(schema@, slots),
            all == done + slots_tokens(schema@, slots.skip(i as int)),
        decreases node.slots.len() - i,
    {
        let ghost w1 = written(*sink);
        assert forall|j: int| 0 <= j < node.slots[i as int].len() implies (#[trigger] node.slots[i as int]@[j])@.conforms(
            schema@,
        ) by {
            assert(node@.slots[i as int][j] == node.slots[i as int]@[j]@);
        }
        match encode_children(schema, &node.slots[i], sink) {
            Ok(()) => {},
            Err(e) => {
                return Err(e);
            },
        }
        proof {
            assert(nodes_view(node.slots[i as int]@) =~= slots[i as int]);
            let more = children_tokens(schema@, slots[i as int]);
            assert(slots.skip(i as int)[0] == slots[i as int]);
            assert(slots.skip(i as int).skip(1) =~= slots.skip(i + 1));
            lemma_wrote_tokens(w0, w1, written(*sink), done, more);
            assert(done + more + slots_tokens(schema@, slots.skip(i + 1)) =~= done + (more
                + slots_tokens(schema@, slots.skip(i + 1))));
            done = done + more;
        }
        i = i + 1;
    }
    proof {
        assert(done + Seq::<Tok>::empty() =~= done);
    }
    Ok(())
}

/// Writes the root element of a part: its start tag with the declaration of
/// the namespace, then its children between `>` and its closing tag. The
/// sink is in memory, so this does not fail.
pub fn encode_root(schema: &Schema, node: &Node, sink: &mut Sink) -> (r: Result<(), WriteError>)
    requires
        schema@.valid(),
        node@.conforms(schema@),
    ensures
        r is Ok,
        wrote(
            *old(sink),
            *final(sink),
            root_tokens(
                schema@.kinds[node@.kind as int].tag,
                slots_tokens(schema@, node@.slots),
            ),
        ),
{
    let ghost w0 = written(*sink);
    let d = &schema.kinds[node.kind];
    assert(schema@.kinds[node@.kind as int] == d@);
    match write_root_start(sink, &d.tag) {
        Ok(()) => {},
        Err(e) => {
            return Err(e);
        },
    }
    let ghost w1 = written(*sink);
    match encode_slots(schema, node, sink) {
        Ok(()) => {},
        Err(e) => {
            return Err(e);
        },
    }
    let ghost w2 = written(*sink);
    match write_root_end(sink, &d.tag) {
        Ok(()) => {},
        Err(e) => {
            return Err(e);
        },
    }
    proof {
        lemma_root_written(w0, w1, w2, written(*sink), d.tag@, slots_tokens(schema@, node@.slots));
    }
    Ok(())
}

/// Whether `node` has a child.
fn any_children(node: &Node) -> (r: bool)
    ensures
        r == has_children(node@),
{
    let mut i: usize = 0;
    while i < node.slots.len()
        invariant
            i <= node.slots.len(),
            forall|a: int| 0 <= a < i ==> (#[trigger] node@.slots[a]).len() == 0,
        decreases node.slots.len() - i,
    {
        if node.slots[i].len() > 0 {
            assert(node@.slots[i as int].len() > 0);
            return true;
        }
        i = i + 1;
    }
    false
}

/// Writes an element. The sink is in memory, so this does not fail.
pub fn encode_element(schema: &Schema, node: &Node, sink: &mut Sink) -> (r: Result<(), WriteError>)
    requires
        schema@.valid(),
        node@.conforms(schema@),
    ensures
        r is Ok,
        wrote(*old(sink), *final(sink), element_tokens(schema@, node@)),
    decreases node, 2int,
{
    let d = &schema.kinds[node.kind];
    let ghost dv = schema@.kinds[node@.kind as int];
    let ghost w0 = written(*sink);
    assert(dv == d@);
    match d.content {
        Content::Drawing => {
            assert(w0 + tokens_text(Seq::<Tok>::empty()) =~= w0);
            Ok(())
        },
        _ => {
            let tag = qualified_name(&d.tag.prefix, &d.tag.local);
            let ghost start = Tok::Start { prefix: dv.tag.prefix, local: dv.tag.local };
            let ghost close = Tok::Close { prefix: dv.tag.prefix, local: dv.tag.local };
            let ghost attrs = attribute_tokens(schema@.symbols, dv.attributes, node@.attributes, 0);
            match write_element_start(sink, tag.as_str()) {
                Ok(()) => {},
                Err(_) => {
                    return Err(WriteError);
                },
            }
            let ghost w1 = written(*sink);
            proof {
                lemma_tokens_text_one(start);
                assert(w1 =~= w0 + tokens_text(seq![start]));
            }
            match encode_attributes(schema, d, node, sink) {
                Ok(()) => {},
                Err(e) => {
                    return Err(e);
                },
            }
            let ghost w2 = written(*sink);
            let ghost head = seq![start] + attrs;
            proof {
                lemma_wrote_tokens(w0, w1, w2, seq![start], attrs);
            }
            match d.content {
                Content::Text => {
                    match write_element_end_open(sink) {
                        Ok(()) => {},
                        Err(_) => {
                            return Err(WriteError);
                        },
                    }
                    let ghost w3 = written(*sink);
                    proof {
                        lemma_wrote_token(w0, w2, w3, head, Tok::Open);
                    }
                    let ghost body = head.push(Tok::Open);
                    let ghost text = if node@.text.len() == 0 {
                        Seq::<Tok>::empty()
                    } else {
                        seq![Tok::Text { text: escaped(node@.text) }]
                    };
                    if node.text.as_str().unicode_len() > 0 {
                        match write_text(sink, node.text.as_str()) {
                            Ok(()) => {},
                            Err(_) => {
                                return Err(WriteError);
                            },
                        }
                        proof {
                            lemma_tokens_text_one(Tok::Text { text: escaped(node@.text) });
                        }
                    } else {
                        assert(w3 + tokens_text(text) =~= w3);
                    }
                    let ghost w4 = written(*sink);
                    proof {
                        lemma_wrote_tokens(w0, w3, w4, body, text);
                    }
                    match write_element_end_close(sink, tag.as_str()) {
                        Ok(()) => {},
                        Err(_) => {
                            return Err(WriteError);
                        },
                    }
                    proof {
                        let w5 = written(*sink);
                        assert(w5 =~= w4 + token_text(close));
                        lemma_wrote_token(w0, w4, w5, body + text, close);
                        assert((body + text).push(close) =~= head + seq![Tok::Open] + text + seq![
                            close,
                        ]);
                    }
                    Ok(())
                },
                _ => {
                    if any_children(node) {
                        match write_element_end_open(sink) {
                            Ok(()) => {},
                            Err(_) => {
                                return Err(WriteError);
                            },
                        }
                        let ghost w3 = written(*sink);
                        proof {
                            lemma_wrote_token(w0, w2, w3, head, Tok::Open);
                        }
                        let ghost body = head.push(Tok::Open);
                        match encode_slots(schema, node, sink) {
                            Ok(()) => {},
                            Err(e) => {
                                return Err(e);
                            },
                        }
                        let ghost w4 = written(*sink);
                        let ghost inner = slots_tokens(schema@, node@.slots);
                        proof {
                            lemma_wrote_tokens(w0, w3, w4, body, inner);
                        }
                        match write_element_end_close(sink, tag.as_str()) {
                            Ok(()) => {},
                            Err(_) => {
                                return Err(WriteError);
                            },
                        }
                        proof {
                            let w5 = written(*sink);
                            assert(w5 =~= w4 + token_text(close));
                            lemma_wrote_token(w0, w4, w5, body + inner, close);
                            assert((body + inner).push(close) =~= head + seq![Tok::Open] + inner
                                + seq![close]);
                        }
                        Ok(())
                    } else {
                        match write_element_end_empty(sink) {
                            Ok(()) => {},
                            Err(_) => {
                                return Err(WriteError);
                            },
                        }
                        proof {
                            let w3 = written(*sink);
                            lemma_wrote_token(w0, w2, w3, head, Tok::Empty);
                            assert(head.push(Tok::Empty) =~= head + seq![Tok::Empty]);
                        }
                        Ok(())
                    }
                },
            }
        },
    }
}

} // verus!
