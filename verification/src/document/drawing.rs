//! The embedded drawing: read token by token, never written.

use crate::catalog::{lemma_kind_drawing, model, DRAWING};
use crate::decode::drawing_node;
use crate::entity::{text_of, text_scalar, unsigned_of, unsigned_scalar, Element, Entity};
use crate::error::{DecodeError, WriteError};
use crate::node::{value_view, Node, NodeView, Scalar};
use crate::schema::{
    Attribute, AttributeView, Codec, Content, Descriptor, DescriptorView, Name, NameView,
};
use crate::writer::{tokens_text, written, Sink};
use crate::lexer::{tokenize, xml_tokens};
use crate::scalar::{parse_unsigned, parse_unsigned_spec};
use crate::token::{closes, is_close, text_is, Reader, Tok, Token};
use vstd::prelude::*;

verus! {

/// A drawing: the picture it refers to and its extent.
#[derive(Debug, PartialEq)]
pub struct Drawing {
    /// the identifier of the embedded picture, as written
    pub embed: Option<String>,
    pub width: Option<usize>,
    pub height: Option<usize>,
}

/// The mathematical value of a [`Drawing`].
pub struct DrawingView {
    pub embed: Option<Seq<char>>,
    pub width: Option<usize>,
    pub height: Option<usize>,
}

/// Which element the reader is inside: the picture reference, the extent, or
/// anything else.
#[derive(Clone, Copy, Debug, PartialEq, Eq, Structural)]
pub enum Handler {
    Any,
    Extent,
    Blip,
}

/// The handler for a child element named `local` met under handler `h`.
/// Below the picture reference everything is scanned for the same attribute;
/// elsewhere children are told apart by name, but for those of the extent.
pub open spec fn child_handler(h: Handler, local: Seq<char>) -> Handler {
    match h {
        Handler::Any => if local == "blip"@ {
            Handler::Blip
        } else if local == "ext"@ {
            Handler::Extent
        } else {
            Handler::Any
        },
        Handler::Extent => Handler::Any,
        Handler::Blip => Handler::Blip,
    }
}

/// The drawing after an attribute `local="value"` was met under handler `h`.
/// An extent that is no unsigned number leaves the field unset.
pub open spec fn capture(h: Handler, local: Seq<char>, value: Seq<char>, d: DrawingView)
    -> DrawingView {
    match h {
        Handler::Any => d,
        Handler::Extent => if local == "cx"@ {
            DrawingView { width: parse_unsigned_spec(value), ..d }
        } else if local == "cy"@ {
            DrawingView { height: parse_unsigned_spec(value), ..d }
        } else {
            d
        },
        Handler::Blip => if local == "embed"@ {
            DrawingView { embed: Some(value), ..d }
        } else {
            d
        },
    }
}

/// Reading the inside of one element under handler `h`: every token up to and
/// including the one that closes the element, or up to the end of the tokens.
/// The result is the drawing and the tokens that are left.
pub open spec fn consume_spec(h: Handler, s: Seq<Tok>, d: DrawingView) -> Result<
    (DrawingView, Seq<Tok>),
    DecodeError,
>
    decreases s.len(), 0int,
{
    if s.len() == 0 {
        Ok((d, s))
    } else if s[0] is Invalid {
        Err(DecodeError::MalformedStream)
    } else if closes(s[0]) {
        Ok((d, s.skip(1)))
    } else {
        match handle_spec(h, s[0], s.skip(1), d) {
            Err(e) => Err(e),
            Ok((d2, rest)) => if rest.len() < s.len() {
                consume_spec(h, rest, d2)
            } else {
                Err(DecodeError::MalformedStream)
            },
        }
    }
}

/// Handling a token `t` that closes nothing, with `s` behind it, under handler
/// `h`. An element start opens a nested read, an attribute may be captured, any
/// other token is passed over.
pub open spec fn handle_spec(h: Handler, t: Tok, s: Seq<Tok>, d: DrawingView) -> Result<
    (DrawingView, Seq<Tok>),
    DecodeError,
>
    decreases s.len(), 1int,
{
    match t {
        Tok::Start { prefix, local } => consume_spec(child_handler(h, local), s, d),
        Tok::Attr { prefix, local, value } => Ok((capture(h, local, value, d), s)),
        _ => Ok((d, s)),
    }
}

/// The drawing of which nothing is known.
pub open spec fn empty_drawing() -> DrawingView {
    DrawingView { embed: None, width: None, height: None }
}

/// Reading an element from its start tag on into `d`. No tokens at all leave
/// `d` as it is.
pub open spec fn root_spec(s: Seq<Tok>, d: DrawingView) -> Result<(DrawingView, Seq<Tok>), DecodeError> {
    if s.len() == 0 {
        Ok((d, s))
    } else if s[0] is Invalid {
        Err(DecodeError::MalformedStream)
    } else {
        consume_spec(Handler::Any, s.skip(1), d)
    }
}

/// Reading a drawing from its start tag on.
pub open spec fn read_spec(s: Seq<Tok>) -> Result<(DrawingView, Seq<Tok>), DecodeError> {
    root_spec(s, empty_drawing())
}

/// The drawing that `s` holds from its start tag on.
pub open spec fn drawing_of(s: Seq<Tok>) -> Result<DrawingView, DecodeError> {
    match read_spec(s) {
        Ok((d, _)) => Ok(d),
        Err(e) => Err(e),
    }
}

/// Whether a drawing can be read from `s`: nothing is left, or an element
/// starts, or the token source has failed.
pub open spec fn readable(s: Seq<Tok>) -> bool {
    s.len() > 0 ==> (s[0] is Start || s[0] is Invalid)
}

impl View for Drawing {
    type V = DrawingView;

    open spec fn view(&self) -> DrawingView {
        DrawingView {
            embed: match self.embed {
                Some(e) => Some(e@),
                None => None,
            },
            width: self.width,
            height: self.height,
        }
    }
}

impl Drawing {
    /// What the mapping knows of the element: its tag, and the three values
    /// that are read of it.
    pub open spec fn descriptor_spec() -> DescriptorView {
        DescriptorView {
            tag: NameView { prefix: "w"@, local: "drawing"@ },
            attributes: seq![
                AttributeView {
                    name: NameView { prefix: "r"@, local: "embed"@ },
                    codec: Codec::Text,
                    required: false,
                },
                AttributeView {
                    name: NameView { prefix: ""@, local: "cx"@ },
                    codec: Codec::Unsigned,
                    required: false,
                },
                AttributeView {
                    name: NameView { prefix: ""@, local: "cy"@ },
                    codec: Codec::Unsigned,
                    required: false,
                },
            ],
            slots: Seq::empty(),
            content: Content::Drawing,
        }
    }

    /// What the mapping knows of the element.
    pub fn descriptor() -> (d: Descriptor)
        ensures
            d@ == Self::descriptor_spec(),
    {
        let mut attributes: Vec<Attribute> = Vec::new();
        attributes.push(Attribute::new("r", "embed", Codec::Text, false));
        attributes.push(Attribute::new("", "cx", Codec::Unsigned, false));
        attributes.push(Attribute::new("", "cy", Codec::Unsigned, false));
        let d = Descriptor {
            tag: Name::new("w", "drawing"),
            attributes,
            slots: Vec::new(),
            content: Content::Drawing,
        };
        proof {
            let want = Self::descriptor_spec();
            assert(d@.attributes =~= want.attributes);
            assert(d@.slots =~= want.slots);
        }
        d
    }

    /// No two of the three values have the same name.
    pub proof fn lemma_descriptor_distinct()
        ensures
            Self::descriptor_spec().distinct(),
    {
        reveal_strlit("r");
        reveal_strlit("");
        reveal_strlit("cx");
        reveal_strlit("cy");
        assert("r"@.len() != ""@.len());
        assert("cx"@[1] != "cy"@[1]);
    }
}

impl Entity for Drawing {
    open spec fn accepts(kind: nat) -> bool {
        kind == DRAWING
    }

    open spec fn node(&self) -> NodeView {
        drawing_node(DRAWING as nat, self@)
    }

    proof fn lemma_node_conforms(&self) {
        lemma_kind_drawing();
        let n = self.node();
        assert(n.attributes_fit(model(), true));
        assert(n.slots_fit(model(), true));
        assert(n.children_fit(model()));
    }

    fn to_node(&self) -> (n: Node) {
        let mut attributes: Vec<Option<Scalar>> = Vec::new();
        attributes.push(text_scalar(&self.embed));
        attributes.push(unsigned_scalar(self.width));
        attributes.push(unsigned_scalar(self.height));
        let n = Node { kind: DRAWING, attributes, slots: Vec::new(), text: String::new() };
        proof {
            lemma_kind_drawing();
            let want = self.node();
            assert(n@.attributes =~= want.attributes);
            assert(n@.slots =~= want.slots);
            assert(n@.text =~= want.text);
            self.lemma_node_conforms();
        }
        n
    }

    fn from_node(n: &Node) -> (r: Drawing) {
        proof {
            lemma_kind_drawing();
            assert(n@.attributes[0] == value_view(n.attributes@[0]));
            assert(n@.attributes[1] == value_view(n.attributes@[1]));
            assert(n@.attributes[2] == value_view(n.attributes@[2]));
        }
        let r = Drawing {
            embed: text_of(&n.attributes[0]),
            width: unsigned_of(&n.attributes[1]),
            height: unsigned_of(&n.attributes[2]),
        };
        proof {
            let got = r.node();
            assert(got.attributes =~= n@.attributes);
            assert(got.slots =~= n@.slots);
            assert(got.text =~= n@.text);
        }
        r
    }
}

impl Element for Drawing {
    /// What was read of a drawing is not written back.
    open spec fn tokens(&self) -> Seq<Tok> {
        Seq::empty()
    }

    open spec fn kind_spec() -> nat {
        DRAWING as nat
    }

    proof fn lemma_kind() {
        lemma_kind_drawing();
    }

    fn kind() -> (k: usize) {
        proof {
            lemma_kind_drawing();
        }
        DRAWING
    }

    /// Writes nothing, and so never fails.
    fn to_writer(&self, sink: &mut Sink) -> (r: Result<(), WriteError>)
        ensures
            r is Ok,
            *final(sink) == *old(sink),
    {
        assert(written(*sink) + tokens_text(Seq::<Tok>::empty()) =~= written(*sink));
        Ok(())
    }
}

impl Default for Drawing {
    fn default() -> (d: Drawing)
        ensures
            d@ == empty_drawing(),
    {
        Drawing { embed: None, width: None, height: None }
    }
}

impl Drawing {
    /// Handles a token outside the picture reference and the extent.
    fn consume_any(&mut self, reader: &mut Reader<'_>, token: &Token) -> (r: Result<(), DecodeError>)
        ensures
            final(reader)@.len() <= old(reader)@.len(),
            handle_spec(Handler::Any, token@, old(reader)@, old(self)@) == match r {
                Ok(()) => Ok((final(self)@, final(reader)@)),
                Err(e) => Err(e),
            },
        decreases old(reader)@.len(), 1int,
    {
        match token {
            Token::ElementStart { local, .. } => {
                if text_is(local, "blip") {
                    consume(reader, self, Handler::Blip)?;
                } else if text_is(local, "ext") {
                    consume(reader, self, Handler::Extent)?;
                } else {
                    consume(reader, self, Handler::Any)?;
                }
            },
            _ => {
                // Ignore
            },
        }
        Ok(())
    }

    /// Handles a token inside the extent element.
    fn consume_ext(&mut self, reader: &mut Reader<'_>, token: &Token) -> (r: Result<(), DecodeError>)
        ensures
            final(reader)@.len() <= old(reader)@.len(),
            handle_spec(Handler::Extent, token@, old(reader)@, old(self)@) == match r {
                Ok(()) => Ok((final(self)@, final(reader)@)),
                Err(e) => Err(e),
            },
        decreases old(reader)@.len(), 1int,
    {
        match token {
            Token::Attribute { local, value, .. } => {
                if text_is(local, "cx") {
                    self.width = parse_unsigned(value.as_str());
                } else if text_is(local, "cy") {
                    self.height = parse_unsigned(value.as_str());
                } else {
                    // Ignore
                }
            },
            Token::ElementStart { .. } => {
                consume(reader, self, Handler::Any)?;
            },
            _ => {
                // Ignore
            },
        }
        Ok(())
    }

    /// Handles a token inside the picture reference.
    fn consume_blip(&mut self, reader: &mut Reader<'_>, token: &Token) -> (r: Result<(), DecodeError>)
        ensures
            final(reader)@.len() <= old(reader)@.len(),
            handle_spec(Handler::Blip, token@, old(reader)@, old(self)@) == match r {
                Ok(()) => Ok((final(self)@, final(reader)@)),
                Err(e) => Err(e),
            },
        decreases old(reader)@.len(), 1int,
    {
        match token {
            Token::Attribute { local, value, .. } => {
                if text_is(local, "embed") {
                    self.embed = Some(value.clone());
                }
            },
            Token::ElementStart { .. } => {
                consume(reader, self, Handler::Blip)?;
            },
            _ => {
                // Ignore
            },
        }
        Ok(())
    }

    /// Reads a drawing whose start tag is the next token.
    pub fn from_reader(reader: &mut Reader<'_>) -> (r: Result<Drawing, DecodeError>)
        requires
            readable(old(reader)@),
        ensures
            final(reader)@.len() <= old(reader)@.len(),
            read_spec(old(reader)@) == match r {
                Ok(d) => Ok((d@, final(reader)@)),
                Err(e) => Err(e),
            },
    {
        let mut this = Drawing::default();
        consume_root(reader, &mut this)?;
        Ok(this)
    }

    /// Reads a drawing from a text that begins with its start tag. `None`
    /// where the text begins with something else.
    pub fn parse(text: &str) -> (r: Option<Result<Drawing, DecodeError>>)
        ensures
            r is Some <==> readable(xml_tokens(text@)),
            r is Some ==> drawing_of(xml_tokens(text@)) == match r->0 {
                Ok(d) => Ok(d@),
                Err(e) => Err(e),
            },
    {
        let tokens = tokenize(text);
        let mut reader = Reader::new(&tokens);
        let begins = match reader.peek() {
            None => true,
            Some(Token::ElementStart { .. }) => true,
            Some(Token::Invalid) => true,
            Some(_) => false,
        };
        if begins {
            match Drawing::from_reader(&mut reader) {
                Ok(d) => Some(Ok(d)),
                Err(e) => Some(Err(e)),
            }
        } else {
            None
        }
    }
}

/// Reads the inside of an element, handing every token that closes nothing to
/// handler `h` of `this`. Stops behind the token that closes the element, or
/// at the end of the tokens.
pub(crate) fn consume(reader: &mut Reader<'_>, this: &mut Drawing, h: Handler) -> (r: Result<(), DecodeError>)
    ensures
        final(reader)@.len() <= old(reader)@.len(),
        consume_spec(h, old(reader)@, old(this)@) == match r {
            Ok(()) => Ok((final(this)@, final(reader)@)),
            Err(e) => Err(e),
        },
    decreases old(reader)@.len(), 0int,
{
    let ghost s0 = reader@;
    let ghost d0 = this@;
    loop
        invariant
            s0 == old(reader)@,
            d0 == old(this)@,
            reader@.len() <= s0.len(),
            consume_spec(h, s0, d0) == consume_spec(h, reader@, this@),
        decreases reader@.len(),
    {
        let token = match reader.next() {
            Some(token) => token,
            None => { return Ok(()) },
        };
        match token {
            Token::Invalid => {
                return Err(DecodeError::MalformedStream);
            },
            Token::ElementEnd { end } if is_close(end) => {
                return Ok(());
            },
            other => {
                match h {
                    Handler::Any => this.consume_any(reader, other)?,
                    Handler::Extent => this.consume_ext(reader, other)?,
                    Handler::Blip => this.consume_blip(reader, other)?,
                }
            },
        }
    }
}

/// Reads an element from its start tag on into `this`.
fn consume_root(reader: &mut Reader<'_>, this: &mut Drawing) -> (r: Result<(), DecodeError>)
    requires
        readable(old(reader)@),
    ensures
        final(reader)@.len() <= old(reader)@.len(),
        root_spec(old(reader)@, old(this)@) == match r {
            Ok(()) => Ok((final(this)@, final(reader)@)),
            Err(e) => Err(e),
        },
{
    let token = match reader.next() {
        Some(token) => token,
        None => { return Ok(()) },
    };
    match token {
        Token::Invalid => Err(DecodeError::MalformedStream),
        _ => consume(reader, this, Handler::Any),
    }
}

/// An attribute of which the handler captures nothing changes nothing of
/// what is read. Outside the picture reference and the extent that is every
/// attribute.
pub proof fn lemma_attribute_passed_over(
    h: Handler,
    prefix: Seq<char>,
    local: Seq<char>,
    value: Seq<char>,
    s: Seq<Tok>,
    d: DrawingView,
)
    requires
        capture(h, local, value, d) == d,
    ensures
        consume_spec(h, seq![Tok::Attr { prefix, local, value }] + s, d) == consume_spec(h, s, d),
{
    let t = seq![Tok::Attr { prefix, local, value }] + s;
    assert(t[0] == Tok::Attr { prefix, local, value });
    assert(t.skip(1) =~= s);
    assert(handle_spec(h, t[0], t.skip(1), d) == Ok::<_, DecodeError>((d, s)));
}

/// A child element in which nothing is captured changes nothing of what is
/// read. `inside` is what stands behind its start tag, up to its end.
pub proof fn lemma_child_passed_over(
    h: Handler,
    prefix: Seq<char>,
    local: Seq<char>,
    inside: Seq<Tok>,
    s: Seq<Tok>,
    d: DrawingView,
)
    requires
        consume_spec(child_handler(h, local), inside + s, d) == Ok::<_, DecodeError>((d, s)),
    ensures
        consume_spec(h, seq![Tok::Start { prefix, local }] + inside + s, d) == consume_spec(
            h,
            s,
            d,
        ),
{
    let t = seq![Tok::Start { prefix, local }] + inside + s;
    assert(t[0] == Tok::Start { prefix, local });
    assert(t.skip(1) =~= inside + s);
    assert(handle_spec(h, t[0], t.skip(1), d) == Ok::<_, DecodeError>((d, s)));
}

/// A child element without attributes and without content changes nothing of
/// what is read, whatever its name.
pub proof fn lemma_empty_child_passed_over(
    h: Handler,
    prefix: Seq<char>,
    local: Seq<char>,
    s: Seq<Tok>,
    d: DrawingView,
)
    ensures
        consume_spec(h, seq![Tok::Start { prefix, local }, Tok::Empty] + s, d) == consume_spec(
            h,
            s,
            d,
        ),
{
    let inside = seq![Tok::Empty] + s;
    assert(inside[0] == Tok::Empty);
    assert(inside.skip(1) =~= s);
    assert(consume_spec(child_handler(h, local), inside, d) == Ok::<_, DecodeError>((d, s)));
    assert(seq![Tok::Start { prefix, local }, Tok::Empty] + s =~= seq![
        Tok::Start { prefix, local },
    ] + seq![Tok::Empty] + s);
    lemma_child_passed_over(h, prefix, local, seq![Tok::Empty], s, d);
}

/// Whether no token of `s` starts a picture reference or an extent, and none
/// is the failure of the token source.
pub open spec fn quiet(s: Seq<Tok>) -> bool {
    forall|i: int|
        0 <= i < s.len() ==> match #[trigger] s[i] {
            Tok::Start { local, .. } => local != "blip"@ && local != "ext"@,
            Tok::Invalid => false,
            _ => true,
        }
}

/// Markup that holds neither a picture reference nor an extent leaves the
/// drawing as it was, however its elements are nested and whatever their
/// attributes are; and reading it does not fail. What is left is an end of
/// the markup.
pub proof fn lemma_quiet_markup(s: Seq<Tok>, d: DrawingView)
    requires
        quiet(s),
    ensures
        consume_spec(Handler::Any, s, d) is Ok,
        consume_spec(Handler::Any, s, d)->Ok_0.0 == d,
        exists|k: int|
            0 <= k <= s.len() && consume_spec(Handler::Any, s, d)->Ok_0.1 == #[trigger] s.skip(k),
    decreases s.len(),
{
    if s.len() == 0 {
        assert(s.skip(0) =~= s);
    } else if closes(s[0]) {
        assert(consume_spec(Handler::Any, s, d)->Ok_0.1 == s.skip(1));
    } else {
        let rest = s.skip(1);
        assert forall|i: int| 0 <= i < rest.len() implies match #[trigger] rest[i] {
            Tok::Start { local, .. } => local != "blip"@ && local != "ext"@,
            Tok::Invalid => false,
            _ => true,
        } by {
            assert(rest[i] == s[i + 1]);
        }
        match s[0] {
            Tok::Start { prefix, local } => {
                lemma_quiet_markup(rest, d);
                let k1 = choose|k: int|
                    0 <= k <= rest.len() && consume_spec(Handler::Any, rest, d)->Ok_0.1
                        == #[trigger] rest.skip(k);
                let after = rest.skip(k1);
                assert(child_handler(Handler::Any, local) == Handler::Any);
                assert(handle_spec(Handler::Any, s[0], rest, d) == Ok::<_, DecodeError>(
                    (d, after),
                ));
                assert(after =~= s.skip(k1 + 1));
                lemma_quiet_suffix(s, k1 + 1);
                lemma_quiet_markup(after, d);
                let k2 = choose|k: int|
                    0 <= k <= after.len() && consume_spec(Handler::Any, after, d)->Ok_0.1
                        == #[trigger] after.skip(k);
                assert(after.skip(k2) =~= s.skip(k1 + 1 + k2));
            },
            _ => {
                assert(handle_spec(Handler::Any, s[0], rest, d) == Ok::<_, DecodeError>(
                    (d, rest),
                ));
                lemma_quiet_markup(rest, d);
                let k1 = choose|k: int|
                    0 <= k <= rest.len() && consume_spec(Handler::Any, rest, d)->Ok_0.1
                        == #[trigger] rest.skip(k);
                assert(rest.skip(k1) =~= s.skip(k1 + 1));
            },
        }
    }
}

/// What is left of quiet markup is quiet.
proof fn lemma_quiet_suffix(s: Seq<Tok>, k: int)
    requires
        quiet(s),
        0 <= k <= s.len(),
    ensures
        quiet(s.skip(k)),
{
    assert forall|i: int| 0 <= i < s.skip(k).len() implies match #[trigger] s.skip(k)[i] {
        Tok::Start { local, .. } => local != "blip"@ && local != "ext"@,
        Tok::Invalid => false,
        _ => true,
    } by {
        assert(s.skip(k)[i] == s[i + k]);
    }
}

} // verus!
