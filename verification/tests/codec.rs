use docx::document::{BreakType, TextSpace};
use docx::escape::unescape_value;
use docx::formatting::{
    BorderStyle, JustificationVal, TableIndentUnit, TableJustificationVal, TableWidthUnit,
};
use docx::lexer::tokenize;
use docx::numbering::NumberingFormatVal;
use docx::scalar::{
    parse_flag, parse_hex, parse_signed, parse_unsigned, render_flag, render_hex, render_signed,
    render_unsigned,
};
use docx::styles::StyleType;
use docx::token::{is_close, ElementEnd, Token};

#[test]
fn unsigned_exact_values() {
    assert_eq!(parse_unsigned("0"), Some(0));
    assert_eq!(parse_unsigned("42"), Some(42));
    assert_eq!(parse_unsigned("+42"), Some(42));
    assert_eq!(parse_unsigned("007"), Some(7));
    assert_eq!(parse_unsigned(&usize::MAX.to_string()), Some(usize::MAX));
}

#[test]
fn unsigned_rejections() {
    assert_eq!(parse_unsigned(""), None);
    assert_eq!(parse_unsigned("+"), None);
    assert_eq!(parse_unsigned("-1"), None);
    assert_eq!(parse_unsigned("1 "), None);
    assert_eq!(parse_unsigned("1.5"), None);
    assert_eq!(parse_unsigned("A"), None);
    assert_eq!(parse_unsigned("++1"), None);
    assert_eq!(parse_unsigned("٣"), None);
    let mut too_big = usize::MAX.to_string();
    too_big.push('0');
    assert_eq!(parse_unsigned(&too_big), None);
    let next = (usize::MAX as u128 + 1).to_string();
    assert_eq!(parse_unsigned(&next), None);
}

#[test]
fn unsigned_agrees_with_the_standard_parser() {
    for s in ["0", "9", "10", "+5", "00", "18446744073709551615", "18446744073709551616", "x", ""] {
        assert_eq!(parse_unsigned(s), s.parse::<usize>().ok(), "{:?}", s);
    }
}

#[test]
fn signed_exact_values() {
    assert_eq!(parse_signed("0"), Some(0));
    assert_eq!(parse_signed("-0"), Some(0));
    assert_eq!(parse_signed("-42"), Some(-42));
    assert_eq!(parse_signed("+42"), Some(42));
    assert_eq!(parse_signed(&isize::MAX.to_string()), Some(isize::MAX));
    assert_eq!(parse_signed(&isize::MIN.to_string()), Some(isize::MIN));
    assert_eq!(parse_signed("-"), None);
    assert_eq!(parse_signed("--1"), None);
    assert_eq!(parse_signed(""), None);
    assert_eq!(parse_signed(&(isize::MAX as i128 + 1).to_string()), None);
    assert_eq!(parse_signed(&(isize::MIN as i128 - 1).to_string()), None);
}

#[test]
fn hex_exact_values() {
    assert_eq!(parse_hex("0"), Some(0));
    assert_eq!(parse_hex("fF"), Some(255));
    assert_eq!(parse_hex("0000000000A"), Some(10));
    assert_eq!(parse_hex("FFFFFFFF"), Some(u32::MAX));
    assert_eq!(parse_hex("100000000"), None);
    assert_eq!(parse_hex(""), None);
    assert_eq!(parse_hex("G"), None);
    assert_eq!(parse_hex("-1"), None);
}

#[test]
fn flag_exact_values() {
    assert_eq!(parse_flag("true"), Some(true));
    assert_eq!(parse_flag("false"), Some(false));
    assert_eq!(parse_flag("1"), None);
    assert_eq!(parse_flag(""), None);
    assert_eq!(parse_flag("True"), None);
    assert_eq!(render_flag(true), "true");
    assert_eq!(render_flag(false), "false");
}

#[test]
fn rendering_exact_values() {
    assert_eq!(render_unsigned(0), "0");
    assert_eq!(render_unsigned(9), "9");
    assert_eq!(render_unsigned(10), "10");
    assert_eq!(render_unsigned(1234567890), "1234567890");
    assert_eq!(render_unsigned(usize::MAX), usize::MAX.to_string());
    assert_eq!(render_signed(0), "0");
    assert_eq!(render_signed(-1), "-1");
    assert_eq!(render_signed(isize::MIN), isize::MIN.to_string());
    assert_eq!(render_signed(isize::MAX), isize::MAX.to_string());
    assert_eq!(render_hex(0), "00000000");
    assert_eq!(render_hex(0xDEADBEEF), "DEADBEEF");
    assert_eq!(render_hex(0x1A), "0000001A");
}

#[test]
fn numbers_are_read_back_from_their_text() {
    for n in [0usize, 1, 9, 10, 99, 100, 65535, usize::MAX] {
        assert_eq!(parse_unsigned(&render_unsigned(n)), Some(n));
    }
    for n in [isize::MIN, -100, -1, 0, 1, 100, isize::MAX] {
        assert_eq!(parse_signed(&render_signed(n)), Some(n));
    }
    for n in [0u32, 1, 15, 16, 0xABCDEF, u32::MAX] {
        assert_eq!(parse_hex(&render_hex(n)), Some(n));
    }
}

#[test]
fn every_justification_symbol_is_read_back() {
    let all = [
        (JustificationVal::Both, "both"),
        (JustificationVal::Center, "center"),
        (JustificationVal::Distribute, "distribute"),
        (JustificationVal::End, "end"),
        (JustificationVal::HighKashida, "highKashida"),
        (JustificationVal::Left, "left"),
        (JustificationVal::LowKashida, "lowKashida"),
        (JustificationVal::MediumKashida, "mediumKashida"),
        (JustificationVal::NumTab, "numTab"),
        (JustificationVal::Right, "right"),
        (JustificationVal::Start, "start"),
        (JustificationVal::ThaiDistribute, "thaiDistribute"),
    ];
    for (i, (v, s)) in all.iter().enumerate() {
        assert_eq!(v.as_str(), *s);
        assert_eq!(JustificationVal::from_str(s), Some(*v));
        assert_eq!(v.index(), i);
        assert_eq!(JustificationVal::from_index(i), *v);
    }
    assert_eq!(JustificationVal::symbols().len(), all.len());
    assert_eq!(JustificationVal::from_str("justify"), None);
    assert_eq!(JustificationVal::from_str(""), None);
    assert_eq!(JustificationVal::from_str("BOTH"), None);
}

#[test]
fn every_table_of_symbols_is_read_back() {
    for i in 0..BorderStyle::symbols().len() {
        let v = BorderStyle::from_index(i);
        assert_eq!(BorderStyle::from_str(v.as_str()), Some(v));
        assert_eq!(BorderStyle::symbols()[i], v.as_str());
    }
    for i in 0..TableJustificationVal::symbols().len() {
        let v = TableJustificationVal::from_index(i);
        assert_eq!(TableJustificationVal::from_str(v.as_str()), Some(v));
    }
    for i in 0..TableIndentUnit::symbols().len() {
        let v = TableIndentUnit::from_index(i);
        assert_eq!(TableIndentUnit::from_str(v.as_str()), Some(v));
    }
    for i in 0..TableWidthUnit::symbols().len() {
        let v = TableWidthUnit::from_index(i);
        assert_eq!(TableWidthUnit::from_str(v.as_str()), Some(v));
    }
    for i in 0..NumberingFormatVal::symbols().len() {
        let v = NumberingFormatVal::from_index(i);
        assert_eq!(NumberingFormatVal::from_str(v.as_str()), Some(v));
    }
    for i in 0..StyleType::symbols().len() {
        let v = StyleType::from_index(i);
        assert_eq!(StyleType::from_str(v.as_str()), Some(v));
    }
    for i in 0..TextSpace::symbols().len() {
        let v = TextSpace::from_index(i);
        assert_eq!(TextSpace::from_str(v.as_str()), Some(v));
    }
    for i in 0..BreakType::symbols().len() {
        let v = BreakType::from_index(i);
        assert_eq!(BreakType::from_str(v.as_str()), Some(v));
    }
    assert_eq!(BorderStyle::NoBorder.as_str(), "none");
    assert_eq!(NumberingFormatVal::NoNumber.as_str(), "none");
    assert_eq!(StyleType::from_str("Paragraph"), None);
}

#[test]
fn unescape_resolves_entities() {
    assert_eq!(unescape_value("a&amp;b"), Some("a&b".to_string()));
    assert_eq!(unescape_value("&lt;&gt;&quot;&apos;"), Some("<>\"'".to_string()));
    assert_eq!(unescape_value("&#x30;&#49;"), Some("01".to_string()));
    assert_eq!(unescape_value("plain"), Some("plain".to_string()));
    assert_eq!(unescape_value(""), Some(String::new()));
    assert_eq!(unescape_value("&bogus;"), None);
    assert_eq!(unescape_value("a & b"), None);
}

#[test]
fn tokenize_gives_the_tokens_in_order() {
    let tokens = tokenize(r#"<?xml version="1.0"?><a:b c="d&amp;" e='f'>text<g/><![CDATA[raw]]></a:b>"#);
    let shown: Vec<String> = tokens.iter().map(|t| format!("{:?}", t)).collect();
    assert_eq!(
        shown,
        vec![
            "Misc",
            r#"ElementStart { prefix: "a", local: "b" }"#,
            r#"Attribute { prefix: "", local: "c", value: "d&amp;" }"#,
            r#"Attribute { prefix: "", local: "e", value: "f" }"#,
            "ElementEnd { end: Open }",
            r#"Text { text: "text" }"#,
            r#"ElementStart { prefix: "", local: "g" }"#,
            "ElementEnd { end: Empty }",
            r#"Cdata { text: "raw" }"#,
            r#"ElementEnd { end: Close { prefix: "a", local: "b" } }"#,
        ]
    );
}

#[test]
fn tokenize_ends_with_the_failure() {
    let tokens = tokenize("<a><");
    assert!(matches!(tokens.last(), Some(Token::Invalid)));
    assert_eq!(tokens.len(), 3);
    assert!(tokenize("").is_empty());
}

#[test]
fn closing_ends() {
    assert!(!is_close(&ElementEnd::Open));
    assert!(is_close(&ElementEnd::Empty));
    assert!(is_close(&ElementEnd::Close { prefix: "w".to_string(), local: "p".to_string() }));
}
