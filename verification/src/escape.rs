//! Values as they stand in a text: escaping and its inverse.

use vstd::prelude::*;

verus! {

/// The error of an entity that is unknown or does not end.
#[verifier::external_type_specification]
#[verifier::external_body]
pub struct ExXmlError(hard_xml::XmlError);

/// What stands in a text for the char `c` of a value.
pub open spec fn escaped_char(c: char) -> Seq<char> {
    if c == '<' {
        "&lt;"@
    } else if c == '>' {
        "&gt;"@
    } else if c == '&' {
        "&amp;"@
    } else if c == '\'' {
        "&apos;"@
    } else if c == '"' {
        "&quot;"@
    } else {
        seq![c]
    }
}

/// A value as it stands in a text: each of `< > & ' "` as its entity.
pub open spec fn escaped(s: Seq<char>) -> Seq<char>
    decreases s.len(),
{
    if s.len() == 0 {
        s
    } else {
        escaped_char(s[0]) + escaped(s.skip(1))
    }
}

/// The value that a text stands for, where it has one: the text with every
/// entity and character reference resolved.
pub uninterp spec fn xml_unescaped(raw: Seq<char>) -> Option<Seq<char>>;

/// The value that a text stands for where each `&` in it begins one of the
/// five named entities; `None` for any other text.
pub open spec fn unescaped_named(raw: Seq<char>) -> Option<Seq<char>>
    decreases raw.len(),
{
    if raw.len() == 0 {
        Some(raw)
    } else if raw[0] != '&' {
        match unescaped_named(raw.skip(1)) {
            Some(t) => Some(seq![raw[0]] + t),
            None => None,
        }
    } else {
        let (c, n) = if "&lt;"@.is_prefix_of(raw) {
            ('<', 4int)
        } else if "&gt;"@.is_prefix_of(raw) {
            ('>', 4int)
        } else if "&amp;"@.is_prefix_of(raw) {
            ('&', 5int)
        } else if "&apos;"@.is_prefix_of(raw) {
            ('\'', 6int)
        } else if "&quot;"@.is_prefix_of(raw) {
            ('"', 6int)
        } else {
            (' ', 0int)
        };
        if 0 < n <= raw.len() {
            match unescaped_named(raw.skip(n)) {
                Some(t) => Some(seq![c] + t),
                None => None,
            }
        } else {
            None
        }
    }
}

/// `hard_xml::utils::xml_unescape`: the value that `raw` stands for, or an
/// error where an entity in it is unknown or does not end. Where every `&`
/// begins one of `&lt;`, `&gt;`, `&amp;`, `&apos;`, `&quot;`, the value is `raw`
/// with each of these replaced by its char.
#[verifier::external_body]
fn unescape(raw: &str) -> (r: Result<String, hard_xml::XmlError>)
    ensures
        match r {
            Ok(t) => xml_unescaped(raw@) == Some(t@),
            Err(_) => xml_unescaped(raw@) is None,
        },
        unescaped_named(raw@) is Some ==> r is Ok && Some(r->Ok_0@) == unescaped_named(raw@),
{
    match hard_xml::utils::xml_unescape(raw) {
        Ok(value) => Ok(value.into_owned()),
        Err(e) => Err(e),
    }
}

/// The value that a text stands for, where it has one.
pub open spec fn unescaped(raw: Seq<char>) -> Option<Seq<char>> {
    match unescaped_named(raw) {
        Some(t) => Some(t),
        None => xml_unescaped(raw),
    }
}

/// The view of a text, if there is one.
pub open spec fn text_view(t: Option<String>) -> Option<Seq<char>> {
    match t {
        Some(t) => Some(t@),
        None => None,
    }
}

/// The value that `raw` stands for; `None` where an entity in it is unknown
/// or does not end.
pub fn unescape_value(raw: &str) -> (r: Option<String>)
    ensures
        text_view(r) == unescaped(raw@),
{
    match unescape(raw) {
        Ok(t) => Some(t),
        Err(_) => None,
    }
}

/// What was escaped is read back as it was.
pub proof fn lemma_unescaped_escaped(s: Seq<char>)
    ensures
        unescaped_named(escaped(s)) == Some(s),
        unescaped(escaped(s)) == Some(s),
    decreases s.len(),
{
    reveal_strlit("&lt;");
    reveal_strlit("&gt;");
    reveal_strlit("&amp;");
    reveal_strlit("&apos;");
    reveal_strlit("&quot;");
    if s.len() == 0 {
    } else {
        let c = s[0];
        let rest = s.skip(1);
        let e = escaped(s);
        lemma_unescaped_escaped(rest);
        assert(e == escaped_char(c) + escaped(rest));
        assert(seq![c] + rest =~= s);
        if c == '<' || c == '>' || c == '&' || c == '\'' || c == '"' {
            let n = escaped_char(c).len() as int;
            assert(e.skip(n) =~= escaped(rest));
            assert(escaped_char(c).is_prefix_of(e));
            assert(e[0] == '&');
            assert(e[1] == escaped_char(c)[1]);
            assert(e[2] == escaped_char(c)[2]);
        } else {
            assert(e.skip(1) =~= escaped(rest));
            assert(e[0] == c);
        }
    }
}

} // verus!
