//! Textual forms of values: flags, numbers, identifiers, symbols.

use crate::node::{value_view, Scalar, ScalarView};
use crate::schema::{Codec, Schema};
use vstd::prelude::*;
use vstd::string::StringExecFns;

verus! {

/// Whether `c` is one of `0` to `9`.
pub open spec fn is_digit(c: char) -> bool {
    '0' <= c && c <= '9'
}

/// The number that a decimal digit stands for.
pub open spec fn digit_value(c: char) -> nat {
    (c as int - 48) as nat
}

/// The digit that stands for a number below ten.
pub open spec fn digit_char(d: nat) -> char {
    (d + 48) as char
}

/// Whether every char of `s` is a decimal digit.
pub open spec fn all_digits(s: Seq<char>) -> bool {
    forall|i: int| 0 <= i < s.len() ==> is_digit(#[trigger] s[i])
}

/// The number that a run of decimal digits stands for, most significant first.
pub open spec fn decimal_value(s: Seq<char>) -> nat
    decreases s.len(),
{
    if s.len() == 0 {
        0
    } else {
        decimal_value(s.drop_last()) * 10 + digit_value(s.last())
    }
}

/// The decimal digits of a number, without leading zeros.
pub open spec fn decimal_text(n: nat) -> Seq<char>
    decreases n,
{
    if n < 10 {
        seq![digit_char(n)]
    } else {
        decimal_text(n / 10).push(digit_char(n % 10))
    }
}

/// The number that `d` denotes where it is one or more decimal digits whose
/// value fits the machine word.
pub open spec fn parse_digits_spec(d: Seq<char>) -> Option<usize> {
    if d.len() > 0 && all_digits(d) && decimal_value(d) <= usize::MAX {
        Some(decimal_value(d) as usize)
    } else {
        None
    }
}

/// What is left of `s` without one leading `+`.
pub open spec fn unsigned_digits(s: Seq<char>) -> Seq<char> {
    if s.len() > 0 && s[0] == '+' {
        s.skip(1)
    } else {
        s
    }
}

/// The unsigned number that `s` denotes: an optional `+`, then one or more
/// decimal digits whose value fits the machine word.
pub open spec fn parse_unsigned_spec(s: Seq<char>) -> Option<usize> {
    parse_digits_spec(unsigned_digits(s))
}

/// The number below 256 that `s` denotes.
pub open spec fn parse_byte_spec(s: Seq<char>) -> Option<u8> {
    match parse_unsigned_spec(s) {
        Some(n) => if n <= u8::MAX {
            Some(n as u8)
        } else {
            None
        },
        None => None,
    }
}

/// What is left of `s` without one leading `+` or `-`.
pub open spec fn signed_digits(s: Seq<char>) -> Seq<char> {
    if s.len() > 0 && (s[0] == '+' || s[0] == '-') {
        s.skip(1)
    } else {
        s
    }
}

/// The number that `s` denotes: an optional sign, then one or more decimal
/// digits, the whole within the range of a signed machine word.
pub open spec fn parse_signed_spec(s: Seq<char>) -> Option<isize> {
    let d = signed_digits(s);
    let v = if s.len() > 0 && s[0] == '-' {
        -(decimal_value(d) as int)
    } else {
        decimal_value(d) as int
    };
    if d.len() > 0 && all_digits(d) && isize::MIN <= v <= isize::MAX {
        Some(v as isize)
    } else {
        None
    }
}

/// A number as text: its decimal digits, behind `-` where it is negative.
pub open spec fn signed_text(n: int) -> Seq<char> {
    if n < 0 {
        seq!['-'] + decimal_text((-n) as nat)
    } else {
        decimal_text(n as nat)
    }
}

/// Whether `c` is a hexadecimal digit, in either case.
pub open spec fn is_hex_digit(c: char) -> bool {
    ('0' <= c && c <= '9') || ('a' <= c && c <= 'f') || ('A' <= c && c <= 'F')
}

/// The number that a hexadecimal digit stands for.
pub open spec fn hex_digit_value(c: char) -> nat {
    if '0' <= c && c <= '9' {
        (c as int - 48) as nat
    } else if 'a' <= c && c <= 'f' {
        (c as int - 87) as nat
    } else {
        (c as int - 55) as nat
    }
}

/// The upper-case hexadecimal digit that stands for a number below sixteen.
pub open spec fn hex_char(d: nat) -> char {
    if d < 10 {
        (d + 48) as char
    } else {
        (d + 55) as char
    }
}

/// Whether every char of `s` is a hexadecimal digit.
pub open spec fn all_hex_digits(s: Seq<char>) -> bool {
    forall|i: int| 0 <= i < s.len() ==> is_hex_digit(#[trigger] s[i])
}

/// The number that a run of hexadecimal digits stands for.
pub open spec fn hex_value(s: Seq<char>) -> nat
    decreases s.len(),
{
    if s.len() == 0 {
        0
    } else {
        hex_value(s.drop_last()) * 16 + hex_digit_value(s.last())
    }
}

/// The last `width` hexadecimal digits of a number, in upper case.
pub open spec fn hex_text(n: nat, width: nat) -> Seq<char>
    decreases width,
{
    if width == 0 {
        Seq::empty()
    } else {
        hex_text(n / 16, (width - 1) as nat).push(hex_char(n % 16))
    }
}

/// The 32-bit number that `s` denotes: one or more hexadecimal digits and
/// nothing else.
pub open spec fn parse_hex_spec(s: Seq<char>) -> Option<u32> {
    if s.len() > 0 && all_hex_digits(s) && hex_value(s) <= u32::MAX {
        Some(hex_value(s) as u32)
    } else {
        None
    }
}

/// The flag that `s` denotes: the words `true` and `false`, nothing else.
pub open spec fn parse_flag_spec(s: Seq<char>) -> Option<bool> {
    if s == "true"@ {
        Some(true)
    } else if s == "false"@ {
        Some(false)
    } else {
        None
    }
}

/// A flag as text.
pub open spec fn flag_text(b: bool) -> Seq<char> {
    if b {
        "true"@
    } else {
        "false"@
    }
}

/// Three things by which two texts can be told apart: the length, the char at
/// place `p`, and the char `q` places before the last.
pub open spec fn fingerprint(s: Seq<char>, p: int, q: int) -> (int, char, char) {
    (s.len() as int, s[p], s[s.len() - 1 - q])
}

/// Whether `i` is the first place of `s` in `table`.
pub open spec fn is_first(table: Seq<Seq<char>>, s: Seq<char>, i: int) -> bool {
    &&& 0 <= i < table.len()
    &&& table[i] == s
    &&& forall|j: int| 0 <= j < i ==> #[trigger] table[j] != s
}

/// The first place of `s` in `table`, if it has one.
pub open spec fn symbol_index(table: Seq<Seq<char>>, s: Seq<char>) -> Option<usize> {
    if exists|i: int| is_first(table, s, i) {
        Some((choose|i: int| is_first(table, s, i)) as usize)
    } else {
        None
    }
}

/// The value that `s` denotes under `codec`, if it denotes one.
pub open spec fn parse_scalar(symbols: Seq<Seq<Seq<char>>>, codec: Codec, s: Seq<char>) -> Option<
    ScalarView,
> {
    match codec {
        Codec::Flag => match parse_flag_spec(s) {
            Some(b) => Some(ScalarView::Flag(b)),
            None => None,
        },
        Codec::Unsigned => match parse_unsigned_spec(s) {
            Some(n) => Some(ScalarView::Unsigned(n)),
            None => None,
        },
        Codec::Byte => match parse_byte_spec(s) {
            Some(n) => Some(ScalarView::Byte(n)),
            None => None,
        },
        Codec::Signed => match parse_signed_spec(s) {
            Some(n) => Some(ScalarView::Signed(n)),
            None => None,
        },
        Codec::HexId => match parse_hex_spec(s) {
            Some(n) => Some(ScalarView::HexId(n)),
            None => None,
        },
        Codec::Text => Some(ScalarView::Text(s)),
        Codec::Symbol(t) => if t < symbols.len() {
            match symbol_index(symbols[t as int], s) {
                Some(i) => Some(ScalarView::Symbol(i)),
                None => None,
            }
        } else {
            None
        },
    }
}

/// The one text that a value is written as.
pub open spec fn scalar_text(symbols: Seq<Seq<Seq<char>>>, codec: Codec, v: ScalarView) -> Seq<
    char,
> {
    match v {
        ScalarView::Flag(b) => flag_text(b),
        ScalarView::Unsigned(n) => decimal_text(n as nat),
        ScalarView::Byte(n) => decimal_text(n as nat),
        ScalarView::Signed(n) => signed_text(n as int),
        ScalarView::HexId(n) => hex_text(n as nat, 8),
        ScalarView::Text(t) => t,
        ScalarView::Symbol(i) => match codec {
            Codec::Symbol(t) => symbols[t as int][i as int],
            _ => Seq::empty(),
        },
    }
}

/// A longer run of digits stands for no smaller a number than its prefix.
pub proof fn lemma_decimal_value_prefix(s: Seq<char>, k: int)
    requires
        0 <= k <= s.len(),
    ensures
        decimal_value(s.take(k)) <= decimal_value(s),
    decreases s.len() - k,
{
    if k == s.len() {
        assert(s.take(k) =~= s);
    } else {
        lemma_decimal_value_prefix(s, k + 1);
        assert(s.take(k + 1).drop_last() =~= s.take(k));
    }
}

/// A longer run of hexadecimal digits stands for no smaller a number than its
/// prefix.
pub proof fn lemma_hex_value_prefix(s: Seq<char>, k: int)
    requires
        0 <= k <= s.len(),
    ensures
        hex_value(s.take(k)) <= hex_value(s),
    decreases s.len() - k,
{
    if k == s.len() {
        assert(s.take(k) =~= s);
    } else {
        lemma_hex_value_prefix(s, k + 1);
        assert(s.take(k + 1).drop_last() =~= s.take(k));
    }
}

/// The digits of a number stand for that number.
pub proof fn lemma_decimal_text(n: nat)
    ensures
        decimal_text(n).len() > 0,
        all_digits(decimal_text(n)),
        decimal_value(decimal_text(n)) == n,
    decreases n,
{
    if n < 10 {
        let t = decimal_text(n);
        assert(t.drop_last() =~= Seq::<char>::empty());
        assert(decimal_value(t.drop_last()) == 0);
    } else {
        lemma_decimal_text(n / 10);
        let t = decimal_text(n / 10);
        assert(t.push(digit_char(n % 10)).drop_last() =~= t);
    }
}

/// Sixteen to the power `w`.
pub open spec fn pow16(w: nat) -> nat
    decreases w,
{
    if w == 0 {
        1
    } else {
        16 * pow16((w - 1) as nat)
    }
}

/// The hexadecimal digits of a number that needs no more than `w` of them
/// stand for that number.
pub proof fn lemma_hex_text(n: nat, w: nat)
    requires
        n < pow16(w),
    ensures
        hex_text(n, w).len() == w,
        all_hex_digits(hex_text(n, w)),
        hex_value(hex_text(n, w)) == n,
    decreases w,
{
    if w == 0 {
    } else {
        lemma_hex_text(n / 16, (w - 1) as nat);
        let t = hex_text(n / 16, (w - 1) as nat);
        assert(t.push(hex_char(n % 16)).drop_last() =~= t);
    }
}

/// A number is read back from its digits.
pub proof fn lemma_unsigned_round_trip(n: usize)
    ensures
        parse_unsigned_spec(decimal_text(n as nat)) == Some(n),
{
    lemma_decimal_text(n as nat);
}

/// A signed number is read back from its text.
pub proof fn lemma_signed_round_trip(n: isize)
    ensures
        parse_signed_spec(signed_text(n as int)) == Some(n),
{
    if n < 0 {
        let m = (-(n as int)) as nat;
        lemma_decimal_text(m);
        let t = signed_text(n as int);
        assert(t.skip(1) =~= decimal_text(m));
    } else {
        lemma_decimal_text(n as nat);
    }
}

/// An identifier is read back from its eight digits.
pub proof fn lemma_hex_round_trip(n: u32)
    ensures
        parse_hex_spec(hex_text(n as nat, 8)) == Some(n),
{
    reveal_with_fuel(pow16, 9);
    lemma_hex_text(n as nat, 8);
}

/// A flag is read back from its word.
pub proof fn lemma_flag_round_trip(b: bool)
    ensures
        parse_flag_spec(flag_text(b)) == Some(b),
{
    reveal_strlit("true");
    reveal_strlit("false");
    assert("true"@.len() != "false"@.len());
}

/// In a table without repetition a symbol is found at its own place.
pub proof fn lemma_symbol_round_trip(table: Seq<Seq<char>>, i: int)
    requires
        0 <= i < table.len() <= usize::MAX,
        forall|a: int, b: int| 0 <= a < b < table.len() ==> #[trigger] table[a] != #[trigger] table[b],
    ensures
        symbol_index(table, table[i]) == Some(i as usize),
{
    assert(is_first(table, table[i], i));
    let c = choose|c: int| is_first(table, table[i], c);
    assert(c == i) by {
        if c < i {
            assert(table[c] != table[i]);
        } else if i < c {
            assert(table[i] != table[c]);
        }
    }
}

/// The one-char text of a digit below sixteen, in upper case.
fn digit_str(d: usize) -> (r: &'static str)
    requires
        d < 16,
    ensures
        r@ == seq![hex_char(d as nat)],
        d < 10 ==> r@ == seq![digit_char(d as nat)],
{
    proof {
        reveal_strlit("0");
        reveal_strlit("1");
        reveal_strlit("2");
        reveal_strlit("3");
        reveal_strlit("4");
        reveal_strlit("5");
        reveal_strlit("6");
        reveal_strlit("7");
        reveal_strlit("8");
        reveal_strlit("9");
        reveal_strlit("A");
        reveal_strlit("B");
        reveal_strlit("C");
        reveal_strlit("D");
        reveal_strlit("E");
        reveal_strlit("F");
    }
    let r = if d == 0 {
        "0"
    } else if d == 1 {
        "1"
    } else if d == 2 {
        "2"
    } else if d == 3 {
        "3"
    } else if d == 4 {
        "4"
    } else if d == 5 {
        "5"
    } else if d == 6 {
        "6"
    } else if d == 7 {
        "7"
    } else if d == 8 {
        "8"
    } else if d == 9 {
        "9"
    } else if d == 10 {
        "A"
    } else if d == 11 {
        "B"
    } else if d == 12 {
        "C"
    } else if d == 13 {
        "D"
    } else if d == 14 {
        "E"
    } else {
        "F"
    };
    assert(r@ =~= seq![hex_char(d as nat)]);
    r
}

/// Reads one or more decimal digits from place `start` of `s` to its end.
fn parse_digits(s: &str, start: usize) -> (r: Option<usize>)
    requires
        start <= s@.len(),
    ensures
        r == parse_digits_spec(s@.skip(start as int)),
{
    let n = s.unicode_len();
    if start == n {
        return None;
    }
    let ghost d = s@.skip(start as int);
    let mut acc: usize = 0;
    let mut i: usize = start;
    while i < n
        invariant
            start <= i <= n,
            n == s@.len(),
            d == s@.skip(start as int),
            d.len() == n - start,
            forall|j: int| 0 <= j < i - start ==> is_digit(#[trigger] d[j]),
            acc == decimal_value(d.take(i - start)),
        decreases n - i,
    {
        let c = s.get_char(i);
        assert(c == d[i - start]);
        if !(c >= '0' && c <= '9') {
            assert(!is_digit(d[i - start]));
            return None;
        }
        let v: usize = (c as u32 - '0' as u32) as usize;
        proof {
            lemma_decimal_value_prefix(d, i - start + 1);
            assert(d.take(i - start + 1).drop_last() =~= d.take(i - start));
            assert(decimal_value(d.take(i - start + 1)) == acc * 10 + v);
            assert(decimal_value(d) >= acc * 10 + v);
        }
        if acc > usize::MAX / 10 {
            return None;
        }
        let t: usize = acc * 10;
        if t > usize::MAX - v {
            return None;
        }
        acc = t + v;
        i = i + 1;
    }
    assert(d.take(n - start) =~= d);
    Some(acc)
}

/// Reads an unsigned decimal number.
pub fn parse_unsigned(s: &str) -> (r: Option<usize>)
    ensures
        r == parse_unsigned_spec(s@),
{
    let n = s.unicode_len();
    if n > 0 && s.get_char(0) == '+' {
        parse_digits(s, 1)
    } else {
        assert(s@.skip(0) =~= s@);
        parse_digits(s, 0)
    }
}

/// Reads a decimal number with an optional sign.
pub fn parse_signed(s: &str) -> (r: Option<isize>)
    ensures
        r == parse_signed_spec(s@),
{
    let n = s.unicode_len();
    let negative = n > 0 && s.get_char(0) == '-';
    let start: usize = if n > 0 && (s.get_char(0) == '+' || s.get_char(0) == '-') {
        1
    } else {
        0
    };
    assert(s@.skip(0) =~= s@);
    match parse_digits(s, start) {
        None => None,
        Some(m) => {
            if negative {
                if m <= isize::MAX as usize {
                    Some(-(m as isize))
                } else if m == isize::MAX as usize + 1 {
                    Some(isize::MIN)
                } else {
                    None
                }
            } else if m <= isize::MAX as usize {
                Some(m as isize)
            } else {
                None
            }
        },
    }
}

/// Reads a 32-bit number from hexadecimal digits.
pub fn parse_hex(s: &str) -> (r: Option<u32>)
    ensures
        r == parse_hex_spec(s@),
{
    let n = s.unicode_len();
    if n == 0 {
        return None;
    }
    let mut acc: u32 = 0;
    let mut i: usize = 0;
    while i < n
        invariant
            i <= n,
            n == s@.len(),
            forall|j: int| 0 <= j < i ==> is_hex_digit(#[trigger] s@[j]),
            acc == hex_value(s@.take(i as int)),
        decreases n - i,
    {
        let c = s.get_char(i);
        let v: u32 = if c >= '0' && c <= '9' {
            c as u32 - '0' as u32
        } else if c >= 'a' && c <= 'f' {
            c as u32 - 'a' as u32 + 10
        } else if c >= 'A' && c <= 'F' {
            c as u32 - 'A' as u32 + 10
        } else {
            assert(!is_hex_digit(s@[i as int]));
            return None;
        };
        proof {
            lemma_hex_value_prefix(s@, i + 1);
            assert(s@.take(i + 1).drop_last() =~= s@.take(i as int));
            assert(hex_value(s@.take(i + 1)) == acc * 16 + v);
            assert(hex_value(s@) >= acc * 16 + v);
        }
        if acc > u32::MAX / 16 {
            return None;
        }
        let t: u32 = acc * 16;
        if t > u32::MAX - v {
            return None;
        }
        acc = t + v;
        i = i + 1;
    }
    assert(s@.take(n as int) =~= s@);
    Some(acc)
}

/// Reads a flag.
pub fn parse_flag(s: &str) -> (r: Option<bool>)
    ensures
        r == parse_flag_spec(s@),
{
    let text = String::from_str(s);
    if text == String::from_str("true") {
        Some(true)
    } else if text == String::from_str("false") {
        Some(false)
    } else {
        None
    }
}

/// Finds `s` in a table of symbols.
pub fn find_symbol(table: &Vec<String>, s: &str) -> (r: Option<usize>)
    ensures
        r == symbol_index(Seq::new(table@.len(), |i: int| table@[i]@), s@),
{
    let ghost t = Seq::new(table@.len(), |i: int| table@[i]@);
    let text = String::from_str(s);
    let mut i: usize = 0;
    while i < table.len()
        invariant
            i <= table.len(),
            t == Seq::new(table@.len(), |i: int| table@[i]@),
            text@ == s@,
            forall|j: int| 0 <= j < i ==> #[trigger] t[j] != s@,
        decreases table.len() - i,
    {
        if table[i] == text {
            assert(is_first(t, s@, i as int));
            let ghost c = choose|c: int| is_first(t, s@, c);
            assert(c == i) by {
                if i < c {
                    assert(t[i as int] != s@);
                }
            }
            return Some(i);
        }
        i = i + 1;
    }
    assert(forall|c: int| !is_first(t, s@, c));
    None
}

/// Writes a number in decimal digits.
pub fn render_unsigned(n: usize) -> (r: String)
    ensures
        r@ == decimal_text(n as nat),
    decreases n,
{
    if n < 10 {
        String::from_str(digit_str(n))
    } else {
        let mut r = render_unsigned(n / 10);
        r.append(digit_str(n % 10));
        assert(decimal_text(n as nat / 10) + seq![digit_char(n as nat % 10)] =~= decimal_text(
            n as nat / 10,
        ).push(digit_char(n as nat % 10)));
        r
    }
}

/// Writes a number in decimal digits, behind `-` where it is negative.
pub fn render_signed(n: isize) -> (r: String)
    ensures
        r@ == signed_text(n as int),
{
    if n >= 0 {
        render_unsigned(n as usize)
    } else {
        let m: usize = if n == isize::MIN {
            isize::MAX as usize + 1
        } else {
            (-n) as usize
        };
        let mut r = String::from_str("-");
        proof {
            reveal_strlit("-");
            assert("-"@ =~= seq!['-']);
        }
        let digits = render_unsigned(m);
        r.append(digits.as_str());
        r
    }
}

/// Writes the last `width` hexadecimal digits of a number.
fn render_hex_digits(n: u32, width: usize) -> (r: String)
    ensures
        r@ == hex_text(n as nat, width as nat),
    decreases width,
{
    if width == 0 {
        String::new()
    } else {
        let mut r = render_hex_digits(n / 16, width - 1);
        r.append(digit_str((n % 16) as usize));
        assert(hex_text(n as nat / 16, (width - 1) as nat) + seq![hex_char(n as nat % 16)]
            =~= hex_text(n as nat / 16, (width - 1) as nat).push(hex_char(n as nat % 16)));
        r
    }
}

/// Writes a 32-bit number in eight upper-case hexadecimal digits.
pub fn render_hex(n: u32) -> (r: String)
    ensures
        r@ == hex_text(n as nat, 8),
{
    render_hex_digits(n, 8)
}

/// Writes a flag.
pub fn render_flag(b: bool) -> (r: String)
    ensures
        r@ == flag_text(b),
{
    if b {
        String::from_str("true")
    } else {
        String::from_str("false")
    }
}

/// Reads a value under `codec`. `None` where the text is outside the codec's
/// domain.
pub fn parse(schema: &Schema, codec: Codec, s: &str) -> (r: Option<Scalar>)
    ensures
        value_view(r) == parse_scalar(schema@.symbols, codec, s@),
        r is Some ==> r->0@.fits(codec, schema@),
{
    match codec {
        Codec::Flag => match parse_flag(s) {
            Some(b) => Some(Scalar::Flag(b)),
            None => None,
        },
        Codec::Unsigned => match parse_unsigned(s) {
            Some(n) => Some(Scalar::Unsigned(n)),
            None => None,
        },
        Codec::Byte => match parse_unsigned(s) {
            Some(n) => if n <= 255 {
                Some(Scalar::Byte(n as u8))
            } else {
                None
            },
            None => None,
        },
        Codec::Signed => match parse_signed(s) {
            Some(n) => Some(Scalar::Signed(n)),
            None => None,
        },
        Codec::HexId => match parse_hex(s) {
            Some(n) => Some(Scalar::HexId(n)),
            None => None,
        },
        Codec::Text => Some(Scalar::Text(String::from_str(s))),
        Codec::Symbol(t) => {
            if t < schema.symbols.len() {
                assert(schema@.symbols[t as int] =~= Seq::new(
                    schema.symbols@[t as int]@.len(),
                    |i: int| schema.symbols@[t as int]@[i]@,
                ));
                match find_symbol(&schema.symbols[t], s) {
                    Some(i) => Some(Scalar::Symbol(i)),
                    None => None,
                }
            } else {
                None
            }
        },
    }
}

/// Writes a value under `codec`.
pub fn render(schema: &Schema, codec: Codec, v: &Scalar) -> (r: String)
    requires
        v@.fits(codec, schema@),
    ensures
        r@ == scalar_text(schema@.symbols, codec, v@),
{
    match v {
        Scalar::Flag(b) => render_flag(*b),
        Scalar::Unsigned(n) => render_unsigned(*n),
        Scalar::Byte(n) => render_unsigned(*n as usize),
        Scalar::Signed(n) => render_signed(*n),
        Scalar::HexId(n) => render_hex(*n),
        Scalar::Text(t) => t.clone(),
        Scalar::Symbol(i) => match codec {
            Codec::Symbol(t) => schema.symbols[t][*i].clone(),
            _ => String::new(),
        },
    }
}

/// A value that fits a codec is read back from its text, where the codec's
/// table of symbols holds none twice.
pub proof fn lemma_scalar_round_trip(symbols: Seq<Seq<Seq<char>>>, codec: Codec, v: ScalarView)
    requires
        match (v, codec) {
            (ScalarView::Flag(_), Codec::Flag) => true,
            (ScalarView::Unsigned(_), Codec::Unsigned) => true,
            (ScalarView::Byte(_), Codec::Byte) => true,
            (ScalarView::Signed(_), Codec::Signed) => true,
            (ScalarView::HexId(_), Codec::HexId) => true,
            (ScalarView::Text(_), Codec::Text) => true,
            (ScalarView::Symbol(i), Codec::Symbol(t)) => {
                &&& t < symbols.len()
                &&& i < symbols[t as int].len() <= usize::MAX
                &&& forall|a: int, b: int|
                    0 <= a < b < symbols[t as int].len() ==> #[trigger] symbols[t as int][a]
                        != #[trigger] symbols[t as int][b]
            },
            _ => false,
        },
    ensures
        parse_scalar(symbols, codec, scalar_text(symbols, codec, v)) == Some(v),
{
    match v {
        ScalarView::Flag(b) => lemma_flag_round_trip(b),
        ScalarView::Unsigned(n) => lemma_unsigned_round_trip(n),
        ScalarView::Byte(n) => lemma_unsigned_round_trip(n as usize),
        ScalarView::Signed(n) => lemma_signed_round_trip(n),
        ScalarView::HexId(n) => lemma_hex_round_trip(n),
        ScalarView::Text(_) => {},
        ScalarView::Symbol(i) => match codec {
            Codec::Symbol(t) => lemma_symbol_round_trip(symbols[t as int], i as int),
            _ => {},
        },
    }
}

} // verus!
