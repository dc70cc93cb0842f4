//! XML tokens as the mapping reads and writes them.

use vstd::prelude::*;
use vstd::string::StringExecFns;

verus! {

/// How a tag ends: `>` after the attributes, `</p:l>`, or `/>`.
#[derive(Debug)]
pub enum ElementEnd {
    Open,
    Close { prefix: String, local: String },
    Empty,
}

/// One token of an XML text.
#[derive(Debug)]
pub enum Token {
    /// `<prefix:local`
    ElementStart { prefix: String, local: String },
    /// `prefix:local="value"`, the value as written (entities unresolved)
    Attribute { prefix: String, local: String, value: String },
    /// the end of an opening tag or of an element
    ElementEnd { end: ElementEnd },
    /// character data, as written
    Text { text: String },
    /// the inside of a CDATA section
    Cdata { text: String },
    /// a declaration, processing instruction, comment or part of a DTD
    Misc,
    /// the point at which the token source failed
    Invalid,
}

/// The mathematical value of a token.
pub enum Tok {
    Start { prefix: Seq<char>, local: Seq<char> },
    Attr { prefix: Seq<char>, local: Seq<char>, value: Seq<char> },
    Open,
    Close { prefix: Seq<char>, local: Seq<char> },
    Empty,
    Text { text: Seq<char> },
    Cdata { text: Seq<char> },
    Misc,
    Invalid,
}

impl View for Token {
    type V = Tok;

    open spec fn view(&self) -> Tok {
        match *self {
            Token::ElementStart { prefix, local } => Tok::Start { prefix: prefix@, local: local@ },
            Token::Attribute { prefix, local, value } => Tok::Attr {
                prefix: prefix@,
                local: local@,
                value: value@,
            },
            Token::ElementEnd { end: ElementEnd::Open } => Tok::Open,
            Token::ElementEnd { end: ElementEnd::Close { prefix, local } } => Tok::Close {
                prefix: prefix@,
                local: local@,
            },
            Token::ElementEnd { end: ElementEnd::Empty } => Tok::Empty,
            Token::Text { text } => Tok::Text { text: text@ },
            Token::Cdata { text } => Tok::Cdata { text: text@ },
            Token::Misc => Tok::Misc,
            Token::Invalid => Tok::Invalid,
        }
    }
}

/// The values of a run of tokens, in order.
pub open spec fn toks(tokens: Seq<Token>) -> Seq<Tok> {
    Seq::new(tokens.len(), |i: int| tokens[i]@)
}

/// Whether a token value ends an element: a closing tag or `/>`.
pub open spec fn closes(t: Tok) -> bool {
    t is Close || t is Empty
}

/// A cursor over tokens: what has been read is gone, the rest is its value.
pub struct Reader<'a> {
    tokens: &'a Vec<Token>,
    pos: usize,
}

impl<'a> View for Reader<'a> {
    type V = Seq<Tok>;

    closed spec fn view(&self) -> Seq<Tok> {
        if self.pos <= self.tokens@.len() {
            toks(self.tokens@).skip(self.pos as int)
        } else {
            Seq::empty()
        }
    }
}

impl<'a> Reader<'a> {
    /// A cursor before the first of `tokens`.
    pub fn new(tokens: &'a Vec<Token>) -> (r: Reader<'a>)
        ensures
            r@ == toks(tokens@),
    {
        assert(toks(tokens@).skip(0) =~= toks(tokens@));
        Reader { tokens, pos: 0 }
    }

    /// The tokens that are left can be counted in a machine word.
    pub proof fn lemma_bounded(&self)
        ensures
            self@.len() <= usize::MAX,
    {
        assert(self.tokens.len() == self.tokens@.len());
    }

    /// Takes the next token, if one is left.
    pub fn next(&mut self) -> (t: Option<&'a Token>)
        ensures
            old(self)@.len() <= usize::MAX,
            old(self)@.len() == 0 ==> t is None && final(self)@ == old(self)@,
            old(self)@.len() > 0 ==> t is Some && t->0@ == old(self)@[0] && final(self)@ == old(
                self,
            )@.skip(1),
    {
        if self.pos < self.tokens.len() {
            let t = &self.tokens[self.pos];
            assert(toks(self.tokens@).skip(self.pos as int).skip(1) =~= toks(self.tokens@).skip(
                self.pos + 1,
            ));
            self.pos = self.pos + 1;
            Some(t)
        } else {
            None
        }
    }

    /// The next token, if one is left, without taking it.
    pub fn peek(&self) -> (t: Option<&'a Token>)
        ensures
            self@.len() == 0 ==> t is None,
            self@.len() > 0 ==> t is Some && t->0@ == self@[0],
    {
        if self.pos < self.tokens.len() {
            Some(&self.tokens[self.pos])
        } else {
            None
        }
    }
}

/// Whether `s` is the text `lit`.
pub fn text_is(s: &String, lit: &str) -> (r: bool)
    ensures
        r == (s@ == lit@),
{
    let t = String::from_str(lit);
    *s == t
}

/// Whether `end` ends an element rather than an opening tag.
pub fn is_close(end: &ElementEnd) -> (r: bool)
    ensures
        r == !(end is Open),
        r == closes((Token::ElementEnd { end: *end })@),
{
    match end {
        ElementEnd::Open => false,
        ElementEnd::Close { .. } => true,
        ElementEnd::Empty => true,
    }
}

} // verus!
