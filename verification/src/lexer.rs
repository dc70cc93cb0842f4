//! From text to tokens, by way of the XML tokenizer.

use crate::token::{toks, ElementEnd, Tok, Token};
use hard_xml::xmlparser::ElementEnd as XmlEnd;
use hard_xml::xmlparser::Token as XmlToken;
use vstd::prelude::*;

verus! {

/// The reader of XML tokens.
#[verifier::external_type_specification]
#[verifier::external_body]
pub struct ExXmlReader<'a>(hard_xml::XmlReader<'a>);

/// The error of the tokenizer.
#[verifier::external_type_specification]
#[verifier::external_body]
pub struct ExParserError(hard_xml::xmlparser::Error);

/// The tokens that the tokenizer finds in a text, in order. Where it fails,
/// the last of them is `Tok::Invalid`.
pub uninterp spec fn xml_tokens(text: Seq<char>) -> Seq<Tok>;

/// The tokens that a reader has yet to give.
pub uninterp spec fn pending(reader: hard_xml::XmlReader<'_>) -> Seq<Tok>;

/// `hard_xml::XmlReader::new`: a reader over `text`, which will give the
/// tokens of `text`.
#[verifier::external_body]
fn reader_new<'a>(text: &'a str) -> (reader: hard_xml::XmlReader<'a>)
    ensures
        pending(reader) == xml_tokens(text@),
{
    hard_xml::XmlReader::new(text)
}

/// Whether a token is one that `reader_peek` hands out: the end of a tag or
/// of an element, text, or a CDATA section.
pub open spec fn is_end_or_text(t: Tok) -> bool {
    t is Open || t is Close || t is Empty || t is Text || t is Cdata
}

/// `hard_xml::XmlReader::peek`: looks at the next token and leaves it in the
/// reader. Where that token is the end of a tag or of an element, text, or a
/// CDATA section, it is handed out as a value of this library.
#[verifier::external_body]
fn reader_peek(reader: &mut hard_xml::XmlReader<'_>) -> (r: Option<Token>)
    ensures
        pending(*final(reader)) == pending(*old(reader)),
        match r {
            Some(t) => pending(*old(reader)).len() > 0 && t@ == pending(*old(reader))[0]
                && is_end_or_text(t@),
            None => pending(*old(reader)).len() > 0 ==> !is_end_or_text(pending(*old(reader))[0]),
        },
{
    match reader.peek()?.as_ref().ok()? {
        XmlToken::ElementEnd { end: XmlEnd::Open, .. } => Some(Token::ElementEnd { end: ElementEnd::Open }),
        XmlToken::ElementEnd { end: XmlEnd::Close(p, l), .. } => Some(Token::ElementEnd { end: ElementEnd::Close { prefix: p.to_string(), local: l.to_string() } }),
        XmlToken::ElementEnd { end: XmlEnd::Empty, .. } => Some(Token::ElementEnd { end: ElementEnd::Empty }),
        XmlToken::Text { text } => Some(Token::Text { text: text.to_string() }),
        XmlToken::Cdata { text, .. } => Some(Token::Cdata { text: text.to_string() }),
        _ => None,
    }
}

/// `hard_xml::XmlReader::next`: takes the next token, if the reader has one
/// left. The start of an element and an attribute are handed out as values of
/// this library, any other token as `Token::Misc`. The tokenizer's failure
/// stands in the reader's tokens as `Tok::Invalid`.
#[verifier::external_body]
fn reader_next(reader: &mut hard_xml::XmlReader<'_>) -> (r: Option<
    Result<Token, hard_xml::xmlparser::Error>,
>)
    ensures
        pending(*old(reader)).len() == 0 ==> r is None && pending(*final(reader)).len() == 0,
        pending(*old(reader)).len() > 0 ==> r is Some && pending(*final(reader)) == pending(
            *old(reader),
        ).skip(1) && match r->0 {
            Ok(t) => !(pending(*old(reader))[0] is Invalid) && t@ == (if pending(
                *old(reader),
            )[0] is Start || pending(*old(reader))[0] is Attr {
                pending(*old(reader))[0]
            } else {
                Tok::Misc
            }),
            Err(_) => pending(*old(reader))[0] is Invalid,
        },
{
    Some(match reader.next()? {
        Err(e) => Err(e),
        Ok(XmlToken::ElementStart { prefix: p, local: l, .. }) => Ok(Token::ElementStart { prefix: p.to_string(), local: l.to_string() }),
        Ok(XmlToken::Attribute { prefix: p, local: l, value: v, .. }) => Ok(Token::Attribute { prefix: p.to_string(), local: l.to_string(), value: v.to_string() }),
        Ok(_) => Ok(Token::Misc),
    })
}

/// Takes the next token of `reader`, if it has one left.
fn next_token(reader: &mut hard_xml::XmlReader<'_>) -> (r: Option<Token>)
    ensures
        pending(*old(reader)).len() == 0 ==> r is None && pending(*final(reader)).len() == 0,
        pending(*old(reader)).len() > 0 ==> r is Some && r->0@ == pending(*old(reader))[0]
            && pending(*final(reader)) == pending(*old(reader)).skip(1),
{
    let ahead = reader_peek(reader);
    match reader_next(reader) {
        None => None,
        Some(Err(_)) => Some(Token::Invalid),
        Some(Ok(token)) => match ahead {
            Some(t) => Some(t),
            None => Some(token),
        },
    }
}

/// The tokens of `text`.
pub fn tokenize(text: &str) -> (tokens: Vec<Token>)
    ensures
        toks(tokens@) == xml_tokens(text@),
{
    let mut reader = reader_new(text);
    let mut tokens: Vec<Token> = Vec::new();
    loop
        invariant
            xml_tokens(text@) == toks(tokens@) + pending(reader),
        decreases pending(reader).len(),
    {
        let ghost before = toks(tokens@);
        let ghost rest = pending(reader);
        match next_token(&mut reader) {
            None => {
                assert(toks(tokens@) + pending(reader) =~= toks(tokens@));
                return tokens;
            },
            Some(token) => {
                tokens.push(token);
            },
        }
        assert(toks(tokens@) =~= before.push(rest[0]));
        assert(before.push(rest[0]) + rest.skip(1) =~= before + rest);
    }
}

} // verus!
