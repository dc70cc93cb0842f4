//! The XML writer, and the text that tokens are written as.

use crate::escape::escaped;
use crate::token::Tok;
use vstd::prelude::*;
use vstd::string::StringExecFns;

verus! {

/// An XML writer that collects what it writes in memory.
#[verifier::external_body]
pub struct Sink {
    writer: hard_xml::XmlWriter<Vec<u8>>,
}

/// The error of a write that failed.
#[verifier::external_type_specification]
#[verifier::external_body]
pub struct ExIoError(std::io::Error);

/// The text that a writer has written so far.
pub uninterp spec fn written(sink: Sink) -> Seq<char>;

/// A name as it is written: `local`, or `prefix:local`.
pub open spec fn qualified(prefix: Seq<char>, local: Seq<char>) -> Seq<char> {
    if prefix.len() == 0 {
        local
    } else {
        prefix + ":"@ + local
    }
}

/// The text of one token. What is no part of an element has none.
pub open spec fn token_text(t: Tok) -> Seq<char> {
    match t {
        Tok::Start { prefix, local } => "<"@ + qualified(prefix, local),
        Tok::Attr { prefix, local, value } => " "@ + qualified(prefix, local) + "=\""@ + value
            + "\""@,
        Tok::Open => ">"@,
        Tok::Close { prefix, local } => "</"@ + qualified(prefix, local) + ">"@,
        Tok::Empty => "/>"@,
        Tok::Text { text } => text,
        Tok::Cdata { text } => "<![CDATA["@ + text + "]]>"@,
        Tok::Misc => Seq::empty(),
        Tok::Invalid => Seq::empty(),
    }
}

/// The text of a run of tokens.
pub open spec fn tokens_text(s: Seq<Tok>) -> Seq<char>
    decreases s.len(),
{
    if s.len() == 0 {
        Seq::empty()
    } else {
        tokens_text(s.drop_last()) + token_text(s.last())
    }
}

/// `hard_xml::XmlWriter::new` over an empty `Vec<u8>`: a writer that has
/// written nothing.
#[verifier::external_body]
fn sink_new() -> (sink: Sink)
    ensures
        written(sink) == Seq::<char>::empty(),
{
    Sink { writer: hard_xml::XmlWriter::new(Vec::new()) }
}

/// `hard_xml::XmlWriter::into_inner`: the bytes that were written, as text.
#[verifier::external_body]
fn sink_into_string(sink: Sink) -> (text: String)
    ensures
        text@ == written(sink),
{
    String::from_utf8_lossy(&sink.writer.into_inner()).into_owned()
}

/// `hard_xml::XmlWriter::write_element_start`: writes `<` and the tag. The
/// writer is over a `Vec<u8>`, to which a write appends; it does not fail.
#[verifier::external_body]
pub(crate) fn write_element_start(sink: &mut Sink, tag: &str) -> (r: Result<
    (),
    std::io::Error,
>)
    ensures
        r is Ok,
        written(*final(sink)) == written(*old(sink)) + "<"@ + tag@,
{
    sink.writer.write_element_start(tag)
}

/// `hard_xml::XmlWriter::write_attribute`: writes a space, the key, `="`,
/// the escaped value and `"`. The writer is over a `Vec<u8>`, to which a
/// write appends; it does not fail.
#[verifier::external_body]
pub(crate) fn write_attribute(sink: &mut Sink, key: &str, value: &str) -> (r:
    Result<(), std::io::Error>)
    ensures
        r is Ok,
        written(*final(sink)) == written(*old(sink)) + " "@ + key@ + "=\""@
            + escaped(value@) + "\""@,
{
    sink.writer.write_attribute(key, value)
}

/// `hard_xml::XmlWriter::write_text`: writes the escaped content. The writer
/// is over a `Vec<u8>`, to which a write appends; it does not fail.
#[verifier::external_body]
pub(crate) fn write_text(sink: &mut Sink, content: &str) -> (r: Result<
    (),
    std::io::Error,
>)
    ensures
        r is Ok,
        written(*final(sink)) == written(*old(sink)) + escaped(content@),
{
    sink.writer.write_text(content)
}

/// `hard_xml::XmlWriter::write_element_end_open`: writes `>`. The writer is
/// over a `Vec<u8>`, to which a write appends; it does not fail.
#[verifier::external_body]
pub(crate) fn write_element_end_open(sink: &mut Sink) -> (r: Result<
    (),
    std::io::Error,
>)
    ensures
        r is Ok,
        written(*final(sink)) == written(*old(sink)) + ">"@,
{
    sink.writer.write_element_end_open()
}

/// `hard_xml::XmlWriter::write_element_end_close`: writes `</`, the tag and
/// `>`. The writer is over a `Vec<u8>`, to which a write appends; it does not
/// fail.
#[verifier::external_body]
pub(crate) fn write_element_end_close(sink: &mut Sink, tag: &str) -> (r: Result<
    (),
    std::io::Error,
>)
    ensures
        r is Ok,
        written(*final(sink)) == written(*old(sink)) + "</"@ + tag@ + ">"@,
{
    sink.writer.write_element_end_close(tag)
}

/// `hard_xml::XmlWriter::write_element_end_empty`: writes `/>`. The writer is
/// over a `Vec<u8>`, to which a write appends; it does not fail.
#[verifier::external_body]
pub(crate) fn write_element_end_empty(sink: &mut Sink) -> (r: Result<
    (),
    std::io::Error,
>)
    ensures
        r is Ok,
        written(*final(sink)) == written(*old(sink)) + "/>"@,
{
    sink.writer.write_element_end_empty()
}

impl Sink {
    /// A writer that has written nothing.
    pub fn new() -> (sink: Sink)
        ensures
            written(sink) == Seq::<char>::empty(),
    {
        sink_new()
    }

    /// All that was written, as one text.
    pub fn into_string(self) -> (text: String)
        ensures
            text@ == written(self),
    {
        sink_into_string(self)
    }
}

/// The name `prefix:local`, or `local` where there is no prefix.
pub fn qualified_name(prefix: &String, local: &String) -> (name: String)
    ensures
        name@ == qualified(prefix@, local@),
{
    if prefix.as_str().unicode_len() == 0 {
        local.clone()
    } else {
        let mut name = prefix.clone();
        name.append(":");
        name.append(local.as_str());
        name
    }
}

/// The text of two runs of tokens is the text of the first, then that of the
/// second.
pub proof fn lemma_tokens_text_concat(a: Seq<Tok>, b: Seq<Tok>)
    ensures
        tokens_text(a + b) == tokens_text(a) + tokens_text(b),
    decreases b.len(),
{
    if b.len() == 0 {
        assert(a + b =~= a);
        assert(tokens_text(a) + tokens_text(b) =~= tokens_text(a));
    } else {
        lemma_tokens_text_concat(a, b.drop_last());
        assert((a + b).drop_last() =~= a + b.drop_last());
        assert((a + b).last() == b.last());
        assert(tokens_text(a) + (tokens_text(b.drop_last()) + token_text(b.last())) =~= tokens_text(
            a,
        ) + tokens_text(b.drop_last()) + token_text(b.last()));
    }
}

/// The text of a run of one token is that token's text.
pub proof fn lemma_tokens_text_one(t: Tok)
    ensures
        tokens_text(seq![t]) == token_text(t),
{
    assert(seq![t].drop_last() =~= Seq::<Tok>::empty());
    assert(tokens_text(Seq::<Tok>::empty()) + token_text(t) =~= token_text(t));
}

} // verus!
